//! Reading elements out of an HTML page by CSS selector.

use crate::text::views;
use scraper::{Html, Selector};
use vstd::prelude::*;

verus! {

/// What the scraper reads of one element of a page.
#[derive(Debug)]
pub struct Element {
    /// Value of the attribute that was asked for, where the element has it.
    pub attribute: Option<String>,
    /// The text nodes below the element, as a walk of the tree below it
    /// meets them.
    pub text: Vec<String>,
}

/// What an [`Element`] holds, as mathematical values.
pub struct ElementView {
    pub attribute: Option<Seq<char>>,
    pub text: Seq<Seq<char>>,
}

impl View for Element {
    type V = ElementView;

    open spec fn view(&self) -> ElementView {
        ElementView {
            attribute: match self.attribute {
                Some(value) => Some(value@),
                None => None,
            },
            text: views(self.text@),
        }
    }
}

/// The views of `elements`, in order.
pub open spec fn element_views(elements: Seq<Element>) -> Seq<ElementView> {
    Seq::new(elements.len(), |i: int| elements[i]@)
}

/// What a selection finds: for the HTML document that `page` parses to, the
/// elements that match the CSS selector group `selector`, in the order in
/// which the parser made them, each with its value of `attribute` and its
/// text nodes; `None` where `selector` is no selector group.
pub uninterp spec fn css_select(page: Seq<char>, selector: Seq<char>, attribute: Seq<char>) -> Option<Seq<ElementView>>;

/// Parses `page` with `scraper::Html::parse_document` and `selector` with
/// `scraper::Selector::parse`, walks `Html::select`, and hands out of each
/// match `Element::attr(attribute)` and the items of `ElementRef::text`.
/// The parser accepts any text as a document and nothing here reads anything
/// but the three arguments, so the result is named as a function of them;
/// it is `None` exactly where the selector is refused.
#[verifier::external_body]
fn select(page: &str, selector: &str, attribute: &str) -> (found: Option<Vec<Element>>)
    ensures
        match found {
            Some(elements) => css_select(page@, selector@, attribute@) == Some(
                element_views(elements@),
            ),
            None => css_select(page@, selector@, attribute@) is None,
        },
{
    let group = match Selector::parse(selector) {
        Ok(group) => group,
        Err(_) => return None,
    };
    let document = Html::parse_document(page);
    let elements = document.select(&group).map(|found| Element {
        attribute: found.value().attr(attribute).map(String::from),
        text: found.text().map(String::from).collect(),
    });
    Some(elements.collect())
}

/// The elements that `selector` selects on `page`: what `css_select` finds,
/// and nothing where `selector` is no selector group.
pub open spec fn selected(page: Seq<char>, selector: Seq<char>, attribute: Seq<char>) -> Seq<
    ElementView,
> {
    match css_select(page, selector, attribute) {
        Some(found) => found,
        None => Seq::empty(),
    }
}

/// The elements of `page` that match `selector`, in the order in which the
/// parser made them, each with its value of `attribute` and its text
/// nodes. A selector that is refused selects nothing.
pub fn select_all(page: &str, selector: &str, attribute: &str) -> (found: Vec<Element>)
    ensures
        element_views(found@) == selected(page@, selector@, attribute@),
{
    match select(page, selector, attribute) {
        Some(found) => found,
        None => {
            let found: Vec<Element> = Vec::new();
            assert(element_views(found@) == Seq::<ElementView>::empty());
            found
        },
    }
}

} // verus!
