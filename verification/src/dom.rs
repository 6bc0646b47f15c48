//! What the extraction reads of an HTML page.

use vstd::prelude::*;

use crate::text::{optional, same_text, texts};

verus! {

/// What is read of one element of a page.
pub struct Element {
    /// The text nodes below the element, in order.
    pub text: Vec<String>,
    /// The value of its `href` attribute.
    pub href: Option<String>,
    /// The value of its `content` attribute.
    pub content: Option<String>,
    /// The text nodes below the next sibling element, if there is one.
    pub next_text: Option<Vec<String>>,
}

/// The texts that an `Element` holds.
#[verifier::ext_equal]
pub struct ElementView {
    pub text: Seq<Seq<char>>,
    pub href: Option<Seq<char>>,
    pub content: Option<Seq<char>>,
    pub next_text: Option<Seq<Seq<char>>>,
}

impl View for Element {
    type V = ElementView;

    open spec fn view(&self) -> ElementView {
        ElementView {
            text: texts(self.text@),
            href: optional(self.href),
            content: optional(self.content),
            next_text: match self.next_text {
                Some(t) => Some(texts(t@)),
                None => None,
            },
        }
    }
}

/// The views of several elements.
pub open spec fn element_views(list: Seq<Element>) -> Seq<ElementView> {
    list.map_values(|e: Element| e@)
}

/// A page: the elements that each CSS selector selects, and the text nodes of
/// the whole document.
#[verifier::ext_equal]
pub struct PageView {
    pub elements: Map<Seq<char>, Seq<ElementView>>,
    pub root_text: Seq<Seq<char>>,
}

impl PageView {
    /// The elements that a selector selects. A selector outside the map, one that
    /// is no CSS selector, selects nothing.
    pub open spec fn select(self, selector: Seq<char>) -> Seq<ElementView> {
        if self.elements.dom().contains(selector) {
            self.elements[selector]
        } else {
            Seq::empty()
        }
    }
}

/// A page that can be asked for its elements.
pub trait Dom {
    /// What the page holds.
    spec fn page(&self) -> PageView;

    /// The elements that a selector selects.
    fn select(&self, selector: &str) -> (result: Vec<Element>)
        ensures
            element_views(result@) == self.page().select(selector@),
    ;

    /// The text nodes of the whole document.
    fn root_text(&self) -> (result: Vec<String>)
        ensures
            texts(result@) == self.page().root_text,
    ;
}

/// An HTML document as the `scraper` crate holds it.
#[verifier::external_type_specification]
#[verifier::external_body]
pub struct ExHtml(scraper::Html);

/// Whether a document has a root element.
pub uninterp spec fn has_root(document: scraper::Html) -> bool;

/// What a document holds: its elements, by the selector that selects them, and the
/// text nodes below its root element.
pub uninterp spec fn document_page(document: scraper::Html) -> PageView;

/// The page that `Html::parse_document` makes of an HTML text.
pub uninterp spec fn parsed_page(html: Seq<char>) -> PageView;

/// `scraper::Html::parse_document` takes any text, gives a document with a root
/// element, and what the document holds is a function of that text.
#[verifier::external_body]
fn parse_html(html: &str) -> (result: scraper::Html)
    ensures
        has_root(result),
        document_page(result) == parsed_page(html@),
{
    scraper::Html::parse_document(html)
}

/// `scraper::Html::root_element` with `ElementRef::text`: the text nodes below the
/// root element. It panics on a document without one.
#[verifier::external_body]
fn root_text_of(document: &scraper::Html) -> (result: Vec<String>)
    requires
        has_root(*document),
    ensures
        texts(result@) == document_page(*document).root_text,
{
    document.root_element().text().map(|t| t.to_string()).collect()
}

/// `scraper::Html::select`: the elements of a document that a selector selects,
/// each with its text nodes, its two attributes and the text nodes of the next
/// sibling element; `None` where `Selector::parse` refuses the selector.
#[verifier::external_body]
fn select_elements(document: &scraper::Html, selector: &str) -> (result: Option<Vec<Element>>)
    ensures
        result is Some <==> document_page(*document).elements.dom().contains(selector@),
        result matches Some(list) ==> element_views(list@) == document_page(
            *document,
        ).elements[selector@],
{
    let selector = scraper::Selector::parse(selector).ok()?;
    let element = |el: scraper::ElementRef| Element {
        text: el.text().map(|t| t.to_string()).collect(),
        href: el.attr("href").map(|t| t.to_string()),
        content: el.attr("content").map(|t| t.to_string()),
        next_text: scraper::Element::next_sibling_element(&el).map(
            |e| e.text().map(|t| t.to_string()).collect(),
        ),
    };
    Some(document.select(&selector).map(element).collect())
}

/// A parsed HTML document.
pub struct Document {
    document: scraper::Html,
    root: Vec<String>,
}

impl Document {
    /// Parses an HTML text.
    pub fn parse(html: &str) -> (result: Document)
        ensures
            result.page() == parsed_page(html@),
    {
        let document: scraper::Html = parse_html(html);
        let root: Vec<String> = root_text_of(&document);
        Document { document, root }
    }
}

/// Copies several texts.
pub fn copy_texts(list: &Vec<String>) -> (result: Vec<String>)
    ensures
        texts(result@) == texts(list@),
{
    let mut result: Vec<String> = Vec::new();
    let mut i: usize = 0;
    while i < list.len()
        invariant
            i <= list@.len(),
            texts(result@) =~= texts(list@).take(i as int),
        decreases list@.len() - i,
    {
        let ghost done = texts(result@);
        result.push(list[i].clone());
        assert(texts(result@) =~= done.push(list@[i as int]@));
        i += 1;
    }
    assert(texts(list@).take(i as int) =~= texts(list@));
    result
}

impl Dom for Document {
    closed spec fn page(&self) -> PageView {
        PageView { elements: document_page(self.document).elements, root_text: texts(self.root@) }
    }

    fn select(&self, selector: &str) -> (result: Vec<Element>) {
        match select_elements(&self.document, selector) {
            Some(list) => list,
            None => {
                let none: Vec<Element> = Vec::new();
                assert(element_views(none@) =~= Seq::empty());
                none
            },
        }
    }

    fn root_text(&self) -> (result: Vec<String>) {
        copy_texts(&self.root)
    }
}

/// Copies an optional text.
fn copy_optional(t: &Option<String>) -> (result: Option<String>)
    ensures
        optional(result) == optional(*t),
{
    match t {
        Some(t) => Some(t.clone()),
        None => None,
    }
}

/// Copies an element.
fn copy_element(e: &Element) -> (result: Element)
    ensures
        result@ == e@,
{
    let next_text: Option<Vec<String>> = match &e.next_text {
        Some(t) => Some(copy_texts(t)),
        None => None,
    };
    Element {
        text: copy_texts(&e.text),
        href: copy_optional(&e.href),
        content: copy_optional(&e.content),
        next_text,
    }
}

/// Copies several elements.
fn copy_elements(list: &Vec<Element>) -> (result: Vec<Element>)
    ensures
        element_views(result@) == element_views(list@),
{
    let mut result: Vec<Element> = Vec::new();
    let mut i: usize = 0;
    while i < list.len()
        invariant
            i <= list@.len(),
            element_views(result@) =~= element_views(list@).take(i as int),
        decreases list@.len() - i,
    {
        let ghost done = element_views(result@);
        result.push(copy_element(&list[i]));
        assert(element_views(result@) =~= done.push(list@[i as int]@));
        i += 1;
    }
    assert(element_views(list@).take(i as int) =~= element_views(list@));
    result
}

/// What one selector selects on a saved page.
pub struct Selection {
    pub selector: String,
    pub elements: Vec<Element>,
}

/// A page given by its elements rather than by an HTML text.
pub struct SavedPage {
    pub selections: Vec<Selection>,
    pub root: Vec<String>,
}

/// What the first selection of a list, from an index on, with a given selector
/// holds.
pub open spec fn saved_from(list: Seq<Selection>, selector: Seq<char>, i: int) -> Seq<ElementView>
    decreases list.len() - i,
{
    if i < 0 || i >= list.len() {
        Seq::empty()
    } else if list[i].selector@ == selector {
        element_views(list[i].elements@)
    } else {
        saved_from(list, selector, i + 1)
    }
}

impl Dom for SavedPage {
    open spec fn page(&self) -> PageView {
        PageView {
            elements: Map::total(|selector: Seq<char>| saved_from(self.selections@, selector, 0)),
            root_text: texts(self.root@),
        }
    }

    fn select(&self, selector: &str) -> (result: Vec<Element>) {
        let mut i: usize = 0;
        while i < self.selections.len()
            invariant
                i <= self.selections@.len(),
                self.page().select(selector@) == saved_from(
                    self.selections@,
                    selector@,
                    i as int,
                ),
            decreases self.selections@.len() - i,
        {
            if same_text(self.selections[i].selector.as_str(), selector) {
                return copy_elements(&self.selections[i].elements);
            }
            i += 1;
        }
        let none: Vec<Element> = Vec::new();
        assert(element_views(none@) =~= Seq::empty());
        none
    }

    fn root_text(&self) -> (result: Vec<String>) {
        copy_texts(&self.root)
    }
}

} // verus!
