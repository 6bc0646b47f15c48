//! What is found on a page: values of labels, titles, sections and the main text.

use vstd::prelude::*;
use vstd::utf8::encode_utf8;

use crate::dom::{ElementView, PageView};
use crate::page::{
    all_text, first_text_from, inline_from, inline_label_from, inline_on, inline_selectors,
    inline_value, label_selectors, labeled_value, main_text, plain, section_from, sibling_from,
    sibling_on, sibling_value, value_or_none,
};
use crate::text::{first_chars, includes, joined, trimmed};
use crate::text_laws::law_joined_without_separator;
use crate::unicode::lower;

verus! {

/// Whether an element names one of several labels, in any case, and text stands in the
/// element next to it.
pub open spec fn answers(e: ElementView, labels: Seq<Seq<char>>) -> bool {
    &&& exists|k: int|
        0 <= k < labels.len() && includes(
            lower(trimmed(e.text.flatten())),
            lower(#[trigger] labels[k]),
        )
    &&& e.next_text matches Some(next) && trimmed(next.flatten()).len() > 0
}

/// The value of a label element is all of the text of the next element.
proof fn lemma_answers(e: ElementView, labels: Seq<Seq<char>>)
    ensures
        answers(e, labels) <==> sibling_value(e, labels) is Some,
        answers(e, labels) ==> sibling_value(e, labels) == Some(
            trimmed(e.next_text->0.flatten()),
        ),
{
    law_joined_without_separator(e.text);
    match e.next_text {
        Some(next) => {
            law_joined_without_separator(next);
        },
        None => {},
    }
}

/// The first element with an answer gives the value.
proof fn lemma_first_answer(list: Seq<ElementView>, labels: Seq<Seq<char>>, from: int, i: int)
    requires
        0 <= from <= i <= list.len(),
        forall|j: int| from <= j < i ==> !answers(#[trigger] list[j], labels),
    ensures
        i < list.len() && answers(list[i], labels) ==> sibling_from(list, labels, from) == Some(
            trimmed(list[i].next_text->0.flatten()),
        ),
        i == list.len() ==> sibling_from(list, labels, from) is None,
    decreases i - from,
{
    if from < list.len() {
        lemma_answers(list[from], labels);
        if from < i {
            assert(!answers(list[from], labels));
            lemma_first_answer(list, labels, from + 1, i);
        }
    }
}

/// Whether no element that a selector selects answers.
pub open spec fn none_answers(page: PageView, selector: Seq<char>, labels: Seq<Seq<char>>) -> bool {
    forall|j: int|
        0 <= j < page.select(selector).len() ==> !answers(
            #[trigger] page.select(selector)[j],
            labels,
        )
}

/// The first label element of a page with an answer gives the value.
proof fn lemma_first_answer_on(
    page: PageView,
    selectors: Seq<Seq<char>>,
    labels: Seq<Seq<char>>,
    from: int,
    r: int,
    i: int,
)
    requires
        0 <= from <= r <= selectors.len(),
        forall|q: int| from <= q < r ==> none_answers(page, #[trigger] selectors[q], labels),
        r < selectors.len() ==> {
            &&& 0 <= i < page.select(selectors[r]).len()
            &&& answers(page.select(selectors[r])[i], labels)
            &&& forall|j: int|
                0 <= j < i ==> !answers(#[trigger] page.select(selectors[r])[j], labels)
        },
    ensures
        r < selectors.len() ==> sibling_on(page, selectors, labels, from) == Some(
            trimmed(page.select(selectors[r])[i].next_text->0.flatten()),
        ),
        r == selectors.len() ==> sibling_on(page, selectors, labels, from) is None,
    decreases r - from,
{
    if from < r {
        assert(none_answers(page, selectors[from], labels));
        let list = page.select(selectors[from]);
        lemma_first_answer(list, labels, 0, list.len() as int);
        lemma_first_answer_on(page, selectors, labels, from + 1, r, i);
    } else if r < selectors.len() {
        lemma_first_answer(page.select(selectors[r]), labels, 0, i);
    }
}

/// The value of a label is the whole text of the element next to the first label element,
/// trimmed: all text nodes one behind the other. Label elements are the terms of definition
/// lists, then those of the label classes, then table headings.
pub proof fn law_label_has_the_next_text(
    page: PageView,
    labels: Seq<Seq<char>>,
    selectors: Seq<Seq<char>>,
    r: int,
    i: int,
)
    requires
        selectors == seq![
            "dt"@,
            ".c-key-info__label"@,
            ".course-detail__label"@,
            ".keyinfo__label"@,
            ".key-info__label"@,
            ".info-label"@,
            "th"@,
        ],
        0 <= r < 7,
        0 <= i < page.select(selectors[r]).len(),
        answers(page.select(selectors[r])[i], labels),
        forall|j: int| 0 <= j < i ==> !answers(#[trigger] page.select(selectors[r])[j], labels),
        forall|q: int| 0 <= q < r ==> none_answers(page, #[trigger] selectors[q], labels),
    ensures
        labeled_value(page, labels) == Some(
            trimmed(page.select(selectors[r])[i].next_text->0.flatten()),
        ),
{
    assert(selectors =~= label_selectors());
    lemma_first_answer_on(page, selectors, labels, 0, r, i);
}

/// What an element reads behind a label and a colon at its start, in any case.
pub open spec fn reads(e: ElementView, label: Seq<char>) -> Option<Seq<char>> {
    let line = trimmed(e.text.flatten());
    let n = label.len() + 1;
    if lower(label + seq![':']).is_prefix_of(lower(line)) && n <= line.len() && trimmed(
        line.skip(n as int),
    ).len() > 0 {
        Some(trimmed(line.skip(n as int)))
    } else {
        None
    }
}

/// Whether an element reads nothing behind any of several labels.
pub open spec fn reads_none(e: ElementView, labels: Seq<Seq<char>>) -> bool {
    forall|k: int| 0 <= k < labels.len() ==> reads(e, #[trigger] labels[k]) is None
}

/// The first label that an element reads something behind gives the value.
proof fn lemma_first_read(e: ElementView, labels: Seq<Seq<char>>, from: int, k: int)
    requires
        0 <= from <= k <= labels.len(),
        forall|m: int| from <= m < k ==> reads(e, #[trigger] labels[m]) is None,
    ensures
        k < labels.len() && reads(e, labels[k]) is Some ==> inline_label_from(
            plain(e),
            labels,
            from,
        ) == reads(e, labels[k]),
        k == labels.len() ==> inline_label_from(plain(e), labels, from) is None,
    decreases k - from,
{
    law_joined_without_separator(e.text);
    if from < labels.len() {
        assert(labels[from].push(':') =~= labels[from] + seq![':']);
        assert(inline_value(plain(e), labels[from]) == reads(e, labels[from]));
        if from < k {
            assert(reads(e, labels[from]) is None);
            lemma_first_read(e, labels, from + 1, k);
        }
    }
}

/// The first element of a list that reads something gives the value.
proof fn lemma_first_reading(
    list: Seq<ElementView>,
    labels: Seq<Seq<char>>,
    from: int,
    i: int,
    k: int,
)
    requires
        0 <= from <= i <= list.len(),
        forall|j: int| from <= j < i ==> reads_none(#[trigger] list[j], labels),
        i < list.len() ==> {
            &&& 0 <= k < labels.len()
            &&& reads(list[i], labels[k]) is Some
            &&& forall|m: int| 0 <= m < k ==> reads(list[i], #[trigger] labels[m]) is None
        },
    ensures
        i < list.len() ==> inline_from(list, labels, from) == reads(list[i], labels[k]),
        i == list.len() ==> inline_from(list, labels, from) is None,
    decreases i - from,
{
    if from < i {
        assert(reads_none(list[from], labels));
        lemma_first_read(list[from], labels, 0, labels.len() as int);
        lemma_first_reading(list, labels, from + 1, i, k);
    } else if i < list.len() {
        lemma_first_read(list[i], labels, 0, k);
    }
}

/// Whether no element that a selector selects reads anything behind any of several labels.
pub open spec fn none_reads(page: PageView, selector: Seq<char>, labels: Seq<Seq<char>>) -> bool {
    forall|j: int|
        0 <= j < page.select(selector).len() ==> reads_none(
            #[trigger] page.select(selector)[j],
            labels,
        )
}

/// The first element of a page that reads something gives the value.
proof fn lemma_first_reading_on(
    page: PageView,
    selectors: Seq<Seq<char>>,
    labels: Seq<Seq<char>>,
    from: int,
    r: int,
    i: int,
    k: int,
)
    requires
        0 <= from <= r <= selectors.len(),
        forall|q: int| from <= q < r ==> none_reads(page, #[trigger] selectors[q], labels),
        r < selectors.len() ==> {
            &&& 0 <= i < page.select(selectors[r]).len()
            &&& 0 <= k < labels.len()
            &&& reads(page.select(selectors[r])[i], labels[k]) is Some
            &&& forall|m: int|
                0 <= m < k ==> reads(page.select(selectors[r])[i], #[trigger] labels[m]) is None
            &&& forall|j: int|
                0 <= j < i ==> reads_none(#[trigger] page.select(selectors[r])[j], labels)
        },
    ensures
        r < selectors.len() ==> inline_on(page, selectors, labels, from) == reads(
            page.select(selectors[r])[i],
            labels[k],
        ),
        r == selectors.len() ==> inline_on(page, selectors, labels, from) is None,
    decreases r - from,
{
    if from < r {
        assert(none_reads(page, selectors[from], labels));
        let list = page.select(selectors[from]);
        lemma_first_reading(list, labels, 0, list.len() as int, 0);
        lemma_first_reading_on(page, selectors, labels, from + 1, r, i, k);
    } else if r < selectors.len() {
        lemma_first_reading(page.select(selectors[r]), labels, 0, i, k);
    }
}

/// Whether no label element of a page has a value.
pub open spec fn no_label_element(page: PageView, labels: Seq<Seq<char>>) -> bool {
    &&& none_answers(page, "dt"@, labels)
    &&& none_answers(page, ".c-key-info__label"@, labels)
    &&& none_answers(page, ".course-detail__label"@, labels)
    &&& none_answers(page, ".keyinfo__label"@, labels)
    &&& none_answers(page, ".key-info__label"@, labels)
    &&& none_answers(page, ".info-label"@, labels)
    &&& none_answers(page, "th"@, labels)
}

/// Where no label element has a value, the value of a label is what the first list item,
/// paragraph, block or span that starts with the label and a colon reads behind it.
pub proof fn law_label_has_the_inline_text(
    page: PageView,
    labels: Seq<Seq<char>>,
    selectors: Seq<Seq<char>>,
    r: int,
    i: int,
    k: int,
)
    requires
        no_label_element(page, labels),
        selectors == seq!["li"@, "p"@, "div"@, "span"@],
        0 <= r < 4,
        0 <= i < page.select(selectors[r]).len(),
        0 <= k < labels.len(),
        reads(page.select(selectors[r])[i], labels[k]) is Some,
        forall|m: int|
            0 <= m < k ==> reads(page.select(selectors[r])[i], #[trigger] labels[m]) is None,
        forall|j: int| 0 <= j < i ==> reads_none(#[trigger] page.select(selectors[r])[j], labels),
        forall|q: int| 0 <= q < r ==> none_reads(page, #[trigger] selectors[q], labels),
    ensures
        labeled_value(page, labels) == reads(page.select(selectors[r])[i], labels[k]),
{
    assert(selectors =~= inline_selectors());
    lemma_no_label_element(page, labels);
    lemma_first_reading_on(page, selectors, labels, 0, r, i, k);
}

/// Where no label element has a value, none is found.
proof fn lemma_no_label_element(page: PageView, labels: Seq<Seq<char>>)
    requires
        no_label_element(page, labels),
    ensures
        sibling_on(page, label_selectors(), labels, 0) is None,
{
    let all = label_selectors();
    assert forall|q: int| 0 <= q < 7 implies none_answers(page, #[trigger] all[q], labels) by {
        assert(q == 0 || q == 1 || q == 2 || q == 3 || q == 4 || q == 5 || q == 6);
    }
    lemma_first_answer_on(page, all, labels, 0, 7, 0);
}

/// A page on which no label element has a value, and nothing reads "Label: value", gives
/// the label none.
pub proof fn law_no_label_no_value(page: PageView, labels: Seq<Seq<char>>)
    requires
        no_label_element(page, labels),
        none_reads(page, "li"@, labels),
        none_reads(page, "p"@, labels),
        none_reads(page, "div"@, labels),
        none_reads(page, "span"@, labels),
    ensures
        labeled_value(page, labels) is None,
        value_or_none(page, labels) is None,
{
    let all = inline_selectors();
    assert forall|q: int| 0 <= q < 4 implies none_reads(page, #[trigger] all[q], labels) by {
        assert(q == 0 || q == 1 || q == 2 || q == 3);
    }
    lemma_no_label_element(page, labels);
    lemma_first_reading_on(page, all, labels, 0, 4, 0, 0);
}

/// Whether the first element that a selector selects has text.
pub open spec fn shows_text(page: PageView, selector: Seq<char>) -> bool {
    page.select(selector).len() > 0 && trimmed(page.select(selector)[0].text.flatten()).len() > 0
}

/// The text of a page by selectors is that of the first element of the first selector whose
/// first element has text: all its text nodes one behind the other, trimmed.
pub proof fn law_text_by_selector(page: PageView, selectors: Seq<Seq<char>>, from: int, r: int)
    requires
        0 <= from <= r <= selectors.len(),
        forall|q: int| from <= q < r ==> !shows_text(page, #[trigger] selectors[q]),
    ensures
        r < selectors.len() && shows_text(page, selectors[r]) ==> first_text_from(
            page,
            selectors,
            from,
        ) == Some(trimmed(page.select(selectors[r])[0].text.flatten())),
        r == selectors.len() ==> first_text_from(page, selectors, from) is None,
    decreases r - from,
{
    if from < selectors.len() {
        if page.select(selectors[from]).len() > 0 {
            law_joined_without_separator(page.select(selectors[from])[0].text);
        }
        if from < r {
            assert(!shows_text(page, selectors[from]));
            law_text_by_selector(page, selectors, from + 1, r);
        }
    }
}

/// The text nodes of several elements, one element behind the other.
pub open spec fn nodes_of(list: Seq<ElementView>) -> Seq<Seq<char>> {
    list.map_values(|e: ElementView| e.text).flatten()
}

/// The text nodes of several elements come one element behind the other.
proof fn lemma_all_text(list: Seq<ElementView>)
    ensures
        all_text(list) == nodes_of(list),
    decreases list.len(),
{
    let nodes = list.map_values(|e: ElementView| e.text);
    nodes.lemma_flatten_and_flatten_alt_are_equivalent();
    if list.len() > 0 {
        let front = list.drop_last();
        let before = front.map_values(|e: ElementView| e.text);
        lemma_all_text(front);
        before.lemma_flatten_and_flatten_alt_are_equivalent();
        assert(nodes.drop_last() =~= before);
        assert(nodes.last() == list.last().text);
    }
}

/// The text of all elements that a selector selects, with blanks between the text nodes.
pub open spec fn text_of_all(page: PageView, selector: Seq<char>) -> Seq<char> {
    trimmed(joined(nodes_of(page.select(selector)), " "@))
}

/// A section of a page is the text of all elements of the first selector with more than
/// twenty bytes of it, cut to the number of characters wanted.
pub proof fn law_section_by_selector(
    page: PageView,
    selectors: Seq<Seq<char>>,
    max: nat,
    from: int,
    r: int,
)
    requires
        0 <= from <= r <= selectors.len(),
        forall|q: int|
            from <= q < r ==> encode_utf8(text_of_all(page, #[trigger] selectors[q])).len() <= 20,
    ensures
        r < selectors.len() && encode_utf8(text_of_all(page, selectors[r])).len() >= 21
            ==> section_from(page, selectors, max, from) == Some(
            trimmed(first_chars(text_of_all(page, selectors[r]), max)),
        ),
        r == selectors.len() ==> section_from(page, selectors, max, from) is None,
    decreases r - from,
{
    if from < selectors.len() {
        lemma_all_text(page.select(selectors[from]));
        if from < r {
            assert(encode_utf8(text_of_all(page, selectors[from])).len() <= 20);
            law_section_by_selector(page, selectors, max, from + 1, r);
        }
    }
}

/// The main text is that of the first content container, with blanks between the text
/// nodes, and that of the whole page only where there is no such container.
pub proof fn law_main_text(page: PageView)
    ensures
        ({
            let found = page.select("main, #main-content, .main-content, article, #content"@);
            &&& found.len() > 0 ==> main_text(page) == joined(found[0].text, " "@)
            &&& found.len() == 0 ==> main_text(page) == joined(page.root_text, " "@)
        }),
{
}

} // verus!
