//! Trusted bridge to the `scraper` crate: CSS selection over an HTML
//! document, handed out as plain strings.  Parsing a fixed document
//! with a fixed selector is deterministic, so each wrapper's result
//! is named by a spec function of the wrapper's text arguments; a
//! selector that does not compile selects nothing.

use vstd::prelude::*;

verus! {

/// The inner HTML of each element of the parsed document matching
/// the selector, in document order; empty when the selector text is
/// invalid.
pub uninterp spec fn selected_inner(body: Seq<char>, sel: Seq<char>) -> Seq<Seq<char>>;

/// The value of one attribute on each element matching the
/// selector, in document order, with an empty marker where the
/// attribute is absent; empty when the selector text is invalid.
pub uninterp spec fn selected_attr(body: Seq<char>, sel: Seq<char>, attr: Seq<char>) -> Seq<
    Option<Seq<char>>,
>;

/// For each element matching the outer selector, the inner HTML of
/// each of its descendants matching the inner selector; empty when
/// a selector text is invalid.
pub uninterp spec fn selected_within_inner(
    body: Seq<char>,
    outer: Seq<char>,
    inner: Seq<char>,
) -> Seq<Seq<Seq<char>>>;

/// For each element matching the outer selector, the value of one
/// attribute on each of its descendants matching the inner
/// selector; empty when a selector text is invalid.
pub uninterp spec fn selected_within_attr(
    body: Seq<char>,
    outer: Seq<char>,
    inner: Seq<char>,
    attr: Seq<char>,
) -> Seq<Seq<Option<Seq<char>>>>;

/// Relies on scraper's `Html::parse_document`, `Selector::parse`
/// and `Html::select`: the matching elements' inner HTML, in
/// document order.
#[verifier::external_body]
pub fn select_inner(body: &str, sel: &str) -> (r: Vec<String>)
    ensures
        r.deep_view() == selected_inner(body@, sel@),
{
    let doc = scraper::Html::parse_document(body);
    let selector = match scraper::Selector::parse(sel) {
        Ok(s) => s,
        Err(_) => return Vec::new(),
    };
    doc.select(&selector).map(|e| e.inner_html()).collect()
}

/// Relies on scraper's `Html::parse_document`, `Selector::parse`,
/// `Html::select` and `Element::attr`: one attribute of each
/// matching element, in document order.
#[verifier::external_body]
pub fn select_attr(body: &str, sel: &str, attr: &str) -> (r: Vec<Option<String>>)
    ensures
        r.deep_view() == selected_attr(body@, sel@, attr@),
{
    let doc = scraper::Html::parse_document(body);
    let selector = match scraper::Selector::parse(sel) {
        Ok(s) => s,
        Err(_) => return Vec::new(),
    };
    doc.select(&selector).map(|e| e.value().attr(attr).map(String::from)).collect()
}

/// Relies on scraper's `Html::parse_document`, `Selector::parse`
/// and nested `select`: the inner HTML of the inner matches,
/// grouped by outer match.
#[verifier::external_body]
pub fn select_within_inner(body: &str, outer: &str, inner: &str) -> (r: Vec<Vec<String>>)
    ensures
        r.deep_view() == selected_within_inner(body@, outer@, inner@),
{
    let doc = scraper::Html::parse_document(body);
    let osel = match scraper::Selector::parse(outer) {
        Ok(s) => s,
        Err(_) => return Vec::new(),
    };
    let isel = match scraper::Selector::parse(inner) {
        Ok(s) => s,
        Err(_) => return Vec::new(),
    };
    doc.select(&osel).map(|o| o.select(&isel).map(|e| e.inner_html()).collect()).collect()
}

/// Relies on scraper's `Html::parse_document`, `Selector::parse`,
/// nested `select` and `Element::attr`: one attribute of the inner
/// matches, grouped by outer match.
#[verifier::external_body]
pub fn select_within_attr(body: &str, outer: &str, inner: &str, attr: &str) -> (r: Vec<
    Vec<Option<String>>,
>)
    ensures
        r.deep_view() == selected_within_attr(body@, outer@, inner@, attr@),
{
    let doc = scraper::Html::parse_document(body);
    let osel = match scraper::Selector::parse(outer) {
        Ok(s) => s,
        Err(_) => return Vec::new(),
    };
    let isel = match scraper::Selector::parse(inner) {
        Ok(s) => s,
        Err(_) => return Vec::new(),
    };
    doc.select(&osel).map(
        |o| o.select(&isel).map(|e| e.value().attr(attr).map(String::from)).collect(),
    ).collect()
}

} // verus!
