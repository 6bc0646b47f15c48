//! Reading texts off a page.

use vstd::prelude::*;
use vstd::utf8::encode_utf8;

use crate::dom::{element_views, Dom, Element, ElementView, PageView};
use crate::schema::NA;
use crate::text::{
    chars_of, contains, first_chars, includes, join, joined, optional, same_text, starts_with,
    string_between, strs, take_chars, texts, trim, trimmed,
};
use crate::text_laws::law_trimmed_idempotent;
use crate::unicode::{lower, to_lower};

verus! {

/// The selectors of a page's primary content container.
pub const MAIN_SELECTOR: &'static str = "main, #main-content, .main-content, article, #content";

/// The text nodes of an element in one.
pub open spec fn plain(e: ElementView) -> Seq<char> {
    joined(e.text, Seq::empty())
}

/// The text nodes of an element in one.
pub fn plain_text(e: &Element) -> (result: String)
    ensures
        result@ == plain(e@),
{
    proof {
        reveal_strlit("");
        assert(""@ =~= Seq::empty());
    }
    join(&e.text, "")
}

/// The text nodes of several elements, one after the other.
pub open spec fn all_text(list: Seq<ElementView>) -> Seq<Seq<char>>
    decreases list.len(),
{
    if list.len() == 0 {
        Seq::empty()
    } else {
        all_text(list.drop_last()) + list.last().text
    }
}

/// The text nodes of several elements, one after the other.
pub fn collect_text(list: &Vec<Element>) -> (result: Vec<String>)
    ensures
        texts(result@) == all_text(element_views(list@)),
{
    let mut result: Vec<String> = Vec::new();
    let mut i: usize = 0;
    assert(element_views(list@).take(0) =~= Seq::empty());
    assert(texts(result@) =~= Seq::empty());
    while i < list.len()
        invariant
            i <= list@.len(),
            texts(result@) == all_text(element_views(list@).take(i as int)),
        decreases list@.len() - i,
    {
        let ghost done = texts(result@);
        let ghost nodes = element_views(list@)[i as int].text;
        assert(element_views(list@).take(i + 1).drop_last() =~= element_views(list@).take(i as int));
        let mut k: usize = 0;
        assert(done + nodes.take(0) =~= done);
        while k < list[i].text.len()
            invariant
                i < list@.len(),
                k <= list@[i as int].text@.len(),
                nodes == texts(list@[i as int].text@),
                texts(result@) =~= done + nodes.take(k as int),
            decreases list@[i as int].text@.len() - k,
        {
            let ghost step = texts(result@);
            result.push(list[i].text[k].clone());
            assert(texts(result@) =~= step.push(nodes[k as int]));
            k += 1;
        }
        assert(nodes.take(k as int) =~= nodes);
        i += 1;
    }
    assert(element_views(list@).take(i as int) =~= element_views(list@));
    result
}

/// The trimmed text of the first element of the first selector that selects one
/// with text in it, from an index on.
pub open spec fn first_text_from(page: PageView, selectors: Seq<Seq<char>>, i: int) -> Option<
    Seq<char>,
>
    decreases selectors.len() - i,
{
    if i < 0 || i >= selectors.len() {
        None
    } else {
        let found = page.select(selectors[i]);
        if found.len() > 0 && trimmed(plain(found[0])).len() > 0 {
            Some(trimmed(plain(found[0])))
        } else {
            first_text_from(page, selectors, i + 1)
        }
    }
}

/// Tries each selector in order; returns the trimmed text of the first element
/// that it selects.
pub fn first_text<D: Dom>(doc: &D, selectors: &[&str]) -> (result: Option<String>)
    ensures
        optional(result) == first_text_from(doc.page(), strs(selectors@), 0),
{
    let mut i: usize = 0;
    while i < selectors.len()
        invariant
            i <= selectors@.len(),
            first_text_from(doc.page(), strs(selectors@), 0) == first_text_from(
                doc.page(),
                strs(selectors@),
                i as int,
            ),
        decreases selectors@.len() - i,
    {
        let found: Vec<Element> = doc.select(selectors[i]);
        assert(strs(selectors@)[i as int] == selectors@[i as int]@);
        assert(element_views(found@).len() == found@.len());
        if found.len() > 0 {
            assert(element_views(found@)[0] == found@[0]@);
            let text: String = trim(plain_text(&found[0]).as_str());
            if !text.as_str().is_empty() {
                return Some(text);
            }
        }
        i += 1;
    }
    None
}

/// The text of all elements that a selector selects.
pub open spec fn selected_text(page: PageView, selector: Seq<char>) -> Seq<char> {
    trimmed(joined(all_text(page.select(selector)), " "@))
}

/// The shortened text of the first selector whose elements hold more than twenty
/// bytes of text, from an index on.
pub open spec fn section_from(
    page: PageView,
    selectors: Seq<Seq<char>>,
    max_chars: nat,
    i: int,
) -> Option<Seq<char>>
    decreases selectors.len() - i,
{
    if i < 0 || i >= selectors.len() {
        None
    } else {
        let text = selected_text(page, selectors[i]);
        if encode_utf8(text).len() > 20 {
            Some(trimmed(first_chars(text, max_chars)))
        } else {
            section_from(page, selectors, max_chars, i + 1)
        }
    }
}

/// Collects the text of the first selector that selects more than a few words,
/// shortened to a number of characters.
pub fn text_from_selectors<D: Dom>(doc: &D, selectors: &[&str], max_chars: usize) -> (result:
    Option<String>)
    ensures
        optional(result) == section_from(doc.page(), strs(selectors@), max_chars as nat, 0),
{
    let mut i: usize = 0;
    while i < selectors.len()
        invariant
            i <= selectors@.len(),
            section_from(doc.page(), strs(selectors@), max_chars as nat, 0) == section_from(
                doc.page(),
                strs(selectors@),
                max_chars as nat,
                i as int,
            ),
        decreases selectors@.len() - i,
    {
        let found: Vec<Element> = doc.select(selectors[i]);
        assert(strs(selectors@)[i as int] == selectors@[i as int]@);
        let text: String = trim(join(&collect_text(&found), " ").as_str());
        if text.as_str().as_bytes().len() > 20 {
            return Some(trim(take_chars(text.as_str(), max_chars).as_str()));
        }
        i += 1;
    }
    None
}

/// The text of the page's primary content container, or of the whole page.
pub open spec fn main_text(page: PageView) -> Seq<char> {
    let found = page.select(MAIN_SELECTOR@);
    if found.len() > 0 {
        joined(found[0].text, " "@)
    } else {
        joined(page.root_text, " "@)
    }
}

/// Extracts the text of the page's primary content container.
/// Scoping to `<main>` keeps navigation, footer and cookie banner text out of
/// score and keyword extraction.
pub fn main_content_text<D: Dom>(doc: &D) -> (result: String)
    ensures
        result@ == main_text(doc.page()),
{
    let found: Vec<Element> = doc.select(MAIN_SELECTOR);
    assert(element_views(found@).len() == found@.len());
    if found.len() > 0 {
        assert(element_views(found@)[0] == found@[0]@);
        join(&found[0].text, " ")
    } else {
        join(&doc.root_text(), " ")
    }
}

/// The selectors of labels whose value is the text of the next element: the terms
/// of a definition list, then label classes and table headings.
pub open spec fn label_selectors() -> Seq<Seq<char>> {
    seq![
        "dt"@,
        ".c-key-info__label"@,
        ".course-detail__label"@,
        ".keyinfo__label"@,
        ".key-info__label"@,
        ".info-label"@,
        "th"@,
    ]
}

/// The selectors of elements that may read "Label: value".
pub open spec fn inline_selectors() -> Seq<Seq<char>> {
    seq!["li"@, "p"@, "div"@, "span"@]
}

/// Whether a text names one of several labels, in any case.
pub open spec fn names_label(text: Seq<char>, labels: Seq<Seq<char>>) -> bool {
    exists|k: int|
        0 <= k < labels.len() && includes(lower(trimmed(text)), lower(#[trigger] labels[k]))
}

/// The value of a label element: the text of the next element.
pub open spec fn sibling_value(e: ElementView, labels: Seq<Seq<char>>) -> Option<Seq<char>> {
    if names_label(plain(e), labels) {
        match e.next_text {
            Some(next) => if trimmed(joined(next, Seq::empty())).len() > 0 {
                Some(trimmed(joined(next, Seq::empty())))
            } else {
                None
            },
            None => None,
        }
    } else {
        None
    }
}

/// The first value of a label element among several elements, from an index on.
pub open spec fn sibling_from(list: Seq<ElementView>, labels: Seq<Seq<char>>, i: int) -> Option<
    Seq<char>,
>
    decreases list.len() - i,
{
    if i < 0 || i >= list.len() {
        None
    } else if sibling_value(list[i], labels) is Some {
        sibling_value(list[i], labels)
    } else {
        sibling_from(list, labels, i + 1)
    }
}

/// What follows "Label:" in a text that starts so, in any case, if anything does.
pub open spec fn inline_value(text: Seq<char>, label: Seq<char>) -> Option<Seq<char>> {
    let prefix = label.push(':');
    let line = trimmed(text);
    if lower(prefix).is_prefix_of(lower(line)) && prefix.len() <= line.len() && trimmed(
        line.skip(prefix.len() as int),
    ).len() > 0 {
        Some(trimmed(line.skip(prefix.len() as int)))
    } else {
        None
    }
}

/// The first inline value among several labels, from an index on.
pub open spec fn inline_label_from(text: Seq<char>, labels: Seq<Seq<char>>, k: int) -> Option<
    Seq<char>,
>
    decreases labels.len() - k,
{
    if k < 0 || k >= labels.len() {
        None
    } else if inline_value(text, labels[k]) is Some {
        inline_value(text, labels[k])
    } else {
        inline_label_from(text, labels, k + 1)
    }
}

/// The first inline value among several elements, from an index on.
pub open spec fn inline_from(list: Seq<ElementView>, labels: Seq<Seq<char>>, i: int) -> Option<
    Seq<char>,
>
    decreases list.len() - i,
{
    if i < 0 || i >= list.len() {
        None
    } else if inline_label_from(plain(list[i]), labels, 0) is Some {
        inline_label_from(plain(list[i]), labels, 0)
    } else {
        inline_from(list, labels, i + 1)
    }
}

/// The first value of a label element of a page, by selector from an index on.
pub open spec fn sibling_on(
    page: PageView,
    selectors: Seq<Seq<char>>,
    labels: Seq<Seq<char>>,
    i: int,
) -> Option<Seq<char>>
    decreases selectors.len() - i,
{
    if i < 0 || i >= selectors.len() {
        None
    } else if sibling_from(page.select(selectors[i]), labels, 0) is Some {
        sibling_from(page.select(selectors[i]), labels, 0)
    } else {
        sibling_on(page, selectors, labels, i + 1)
    }
}

/// The first inline value of a page, by selector from an index on.
pub open spec fn inline_on(
    page: PageView,
    selectors: Seq<Seq<char>>,
    labels: Seq<Seq<char>>,
    i: int,
) -> Option<Seq<char>>
    decreases selectors.len() - i,
{
    if i < 0 || i >= selectors.len() {
        None
    } else if inline_from(page.select(selectors[i]), labels, 0) is Some {
        inline_from(page.select(selectors[i]), labels, 0)
    } else {
        inline_on(page, selectors, labels, i + 1)
    }
}

/// The value that a page gives to one of several labels.
pub open spec fn labeled_value(page: PageView, labels: Seq<Seq<char>>) -> Option<Seq<char>> {
    if sibling_on(page, label_selectors(), labels, 0) is Some {
        sibling_on(page, label_selectors(), labels, 0)
    } else {
        inline_on(page, inline_selectors(), labels, 0)
    }
}

/// Whether a text names one of several labels, in any case.
pub fn mentions_label(text: &str, labels: &[&str]) -> (result: bool)
    ensures
        result == names_label(text@, strs(labels@)),
{
    let line: String = to_lower(trim(text).as_str());
    let mut k: usize = 0;
    while k < labels.len()
        invariant
            k <= labels@.len(),
            line@ == lower(trimmed(text@)),
            forall|j: int|
                0 <= j < k ==> !includes(line@, lower(#[trigger] strs(labels@)[j])),
        decreases labels@.len() - k,
    {
        if contains(line.as_str(), to_lower(labels[k]).as_str()) {
            assert(includes(line@, lower(strs(labels@)[k as int])));
            return true;
        }
        k += 1;
    }
    false
}

/// The first value of a label element among several elements.
pub fn first_sibling_value(list: &Vec<Element>, labels: &[&str]) -> (result: Option<String>)
    ensures
        optional(result) == sibling_from(element_views(list@), strs(labels@), 0),
{
    let mut i: usize = 0;
    while i < list.len()
        invariant
            i <= list@.len(),
            sibling_from(element_views(list@), strs(labels@), 0) == sibling_from(
                element_views(list@),
                strs(labels@),
                i as int,
            ),
        decreases list@.len() - i,
    {
        assert(element_views(list@)[i as int] == list@[i as int]@);
        if mentions_label(plain_text(&list[i]).as_str(), labels) {
            match &list[i].next_text {
                Some(next) => {
                    proof {
                        reveal_strlit("");
                        assert(""@ =~= Seq::empty());
                    }
                    let value: String = trim(join(next, "").as_str());
                    if !value.as_str().is_empty() {
                        return Some(value);
                    }
                },
                None => {},
            }
        }
        i += 1;
    }
    None
}

/// What follows "Label:" in a text that starts so, in any case.
pub fn value_after_label(text: &str, label: &str) -> (result: Option<String>)
    ensures
        optional(result) == inline_value(text@, label@),
{
    let mut prefix: String = label.to_string();
    prefix.push(':');
    let line: String = trim(text);
    if !starts_with(to_lower(line.as_str()).as_str(), to_lower(prefix.as_str()).as_str()) {
        return None;
    }
    let chars: Vec<char> = chars_of(line.as_str());
    let n: usize = chars_of(prefix.as_str()).len();
    if n > chars.len() {
        return None;
    }
    let rest: String = string_between(&chars, n, chars.len());
    assert(rest@ =~= line@.skip(n as int));
    let value: String = trim(rest.as_str());
    if value.as_str().is_empty() {
        None
    } else {
        Some(value)
    }
}

/// The first inline value among several elements.
pub fn first_inline_value(list: &Vec<Element>, labels: &[&str]) -> (result: Option<String>)
    ensures
        optional(result) == inline_from(element_views(list@), strs(labels@), 0),
{
    let mut i: usize = 0;
    while i < list.len()
        invariant
            i <= list@.len(),
            inline_from(element_views(list@), strs(labels@), 0) == inline_from(
                element_views(list@),
                strs(labels@),
                i as int,
            ),
        decreases list@.len() - i,
    {
        assert(element_views(list@)[i as int] == list@[i as int]@);
        let text: String = plain_text(&list[i]);
        let mut k: usize = 0;
        while k < labels.len()
            invariant
                i < list@.len(),
                k <= labels@.len(),
                text@ == plain(element_views(list@)[i as int]),
                inline_from(element_views(list@), strs(labels@), 0) == inline_from(
                    element_views(list@),
                    strs(labels@),
                    i as int,
                ),
                inline_label_from(text@, strs(labels@), 0) == inline_label_from(
                    text@,
                    strs(labels@),
                    k as int,
                ),
            decreases labels@.len() - k,
        {
            assert(strs(labels@)[k as int] == labels@[k as int]@);
            let value: Option<String> = value_after_label(text.as_str(), labels[k]);
            if value.is_some() {
                return value;
            }
            k += 1;
        }
        i += 1;
    }
    None
}

/// Searches for the value of a label on three HTML patterns: a definition list,
/// a label element followed by its value, and inline text "Label: value".
/// Returns `NA` where there is none.
pub fn find_labeled_value<D: Dom>(doc: &D, labels: &[&str]) -> (result: String)
    ensures
        result@ == match labeled_value(doc.page(), strs(labels@)) {
            Some(value) => value,
            None => NA@,
        },
{
    let siblings: [&str; 7] = [
        "dt",
        ".c-key-info__label",
        ".course-detail__label",
        ".keyinfo__label",
        ".key-info__label",
        ".info-label",
        "th",
    ];
    assert(strs(siblings@) =~= label_selectors());
    let mut i: usize = 0;
    while i < 7
        invariant
            i <= 7,
            strs(siblings@) == label_selectors(),
            sibling_on(doc.page(), label_selectors(), strs(labels@), 0) == sibling_on(
                doc.page(),
                label_selectors(),
                strs(labels@),
                i as int,
            ),
        decreases 7 - i,
    {
        assert(strs(siblings@)[i as int] == siblings@[i as int]@);
        match first_sibling_value(&doc.select(siblings[i]), labels) {
            Some(value) => {
                return value;
            },
            None => {},
        }
        i += 1;
    }
    let inline: [&str; 4] = ["li", "p", "div", "span"];
    assert(strs(inline@) =~= inline_selectors());
    let mut k: usize = 0;
    while k < 4
        invariant
            k <= 4,
            strs(inline@) == inline_selectors(),
            sibling_on(doc.page(), label_selectors(), strs(labels@), 0) is None,
            inline_on(doc.page(), inline_selectors(), strs(labels@), 0) == inline_on(
                doc.page(),
                inline_selectors(),
                strs(labels@),
                k as int,
            ),
        decreases 4 - k,
    {
        assert(strs(inline@)[k as int] == inline@[k as int]@);
        match first_inline_value(&doc.select(inline[k]), labels) {
            Some(value) => {
                return value;
            },
            None => {},
        }
        k += 1;
    }
    NA.to_string()
}

/// The value that a page gives to one of several labels, unless it is `NA`.
pub open spec fn value_or_none(page: PageView, labels: Seq<Seq<char>>) -> Option<Seq<char>> {
    match labeled_value(page, labels) {
        Some(value) => if value != NA@ {
            Some(value)
        } else {
            None
        },
        None => None,
    }
}

/// The value that a page gives to one of several labels, if any.
pub fn labeled<D: Dom>(doc: &D, labels: &[&str]) -> (result: Option<String>)
    ensures
        optional(result) == value_or_none(doc.page(), strs(labels@)),
{
    let value: String = find_labeled_value(doc, labels);
    if same_text(value.as_str(), NA) {
        None
    } else {
        Some(value)
    }
}

/// Whether an optional text is trimmed and not empty, where there is one.
pub open spec fn is_solid_value(value: Option<Seq<char>>) -> bool {
    value matches Some(t) ==> t.len() > 0 && trimmed(t) == t
}

/// The value of a label element is trimmed and not empty.
proof fn lemma_sibling_from(list: Seq<ElementView>, labels: Seq<Seq<char>>, i: int)
    ensures
        is_solid_value(sibling_from(list, labels, i)),
    decreases list.len() - i,
{
    if 0 <= i < list.len() {
        match list[i].next_text {
            Some(next) => {
                law_trimmed_idempotent(joined(next, Seq::empty()));
            },
            None => {},
        }
        lemma_sibling_from(list, labels, i + 1);
    }
}

/// The value of a label element of a page is trimmed and not empty.
proof fn lemma_sibling_on(
    page: PageView,
    selectors: Seq<Seq<char>>,
    labels: Seq<Seq<char>>,
    i: int,
)
    ensures
        is_solid_value(sibling_on(page, selectors, labels, i)),
    decreases selectors.len() - i,
{
    if 0 <= i < selectors.len() {
        lemma_sibling_from(page.select(selectors[i]), labels, 0);
        lemma_sibling_on(page, selectors, labels, i + 1);
    }
}

/// An inline value for one of several labels is trimmed and not empty.
proof fn lemma_inline_label_from(text: Seq<char>, labels: Seq<Seq<char>>, k: int)
    ensures
        is_solid_value(inline_label_from(text, labels, k)),
    decreases labels.len() - k,
{
    if 0 <= k < labels.len() {
        law_trimmed_idempotent(trimmed(text).skip(labels[k].push(':').len() as int));
        lemma_inline_label_from(text, labels, k + 1);
    }
}

/// An inline value among several elements is trimmed and not empty.
proof fn lemma_inline_from(list: Seq<ElementView>, labels: Seq<Seq<char>>, i: int)
    ensures
        is_solid_value(inline_from(list, labels, i)),
    decreases list.len() - i,
{
    if 0 <= i < list.len() {
        lemma_inline_label_from(plain(list[i]), labels, 0);
        lemma_inline_from(list, labels, i + 1);
    }
}

/// An inline value of a page is trimmed and not empty.
proof fn lemma_inline_on(page: PageView, selectors: Seq<Seq<char>>, labels: Seq<Seq<char>>, i: int)
    ensures
        is_solid_value(inline_on(page, selectors, labels, i)),
    decreases selectors.len() - i,
{
    if 0 <= i < selectors.len() {
        lemma_inline_from(page.select(selectors[i]), labels, 0);
        lemma_inline_on(page, selectors, labels, i + 1);
    }
}

/// The value that a page gives to a label is trimmed and not empty.
pub proof fn law_labeled_value_is_solid(page: PageView, labels: Seq<Seq<char>>)
    ensures
        is_solid_value(labeled_value(page, labels)),
        is_solid_value(value_or_none(page, labels)),
{
    lemma_sibling_on(page, label_selectors(), labels, 0);
    lemma_inline_on(page, inline_selectors(), labels, 0);
}

} // verus!
