//! Trusted views of HTML text, through the scraper crate.
//!
//! The page parsers never walk an HTML tree themselves: they see a document
//! only as the list of texts or fragments selected by one of the fixed CSS
//! selectors below. What each selection returns is a function of the text
//! and the selector alone; the uninterpreted functions name those results,
//! and the wrappers tie the names to scraper's calls.

use vstd::prelude::*;

use crate::text::string_views;

verus! {

/// The flattened texts of the elements of a document matching a selector,
/// in document order.
pub uninterp spec fn document_texts(doc: Seq<char>, sel: Seq<char>) -> Seq<Seq<char>>;

/// The serialized HTML of the elements of a document matching a selector,
/// in document order.
pub uninterp spec fn document_htmls(doc: Seq<char>, sel: Seq<char>) -> Seq<Seq<char>>;

/// The flattened texts of the elements of an HTML fragment matching a
/// selector, in document order.
pub uninterp spec fn fragment_texts(frag: Seq<char>, sel: Seq<char>) -> Seq<Seq<char>>;

/// For each element of a fragment matching `row_sel`, in document order:
/// the flattened texts of its descendants matching `cell_sel`.
pub uninterp spec fn fragment_row_cells(
    frag: Seq<char>,
    row_sel: Seq<char>,
    cell_sel: Seq<char>,
) -> Seq<Seq<Seq<char>>>;

/// The views of a list of lists of strings.
pub open spec fn string_views2(r: Seq<Vec<String>>) -> Seq<Seq<Seq<char>>> {
    Seq::new(r.len(), |i: int| string_views(r[i]@))
}

/// The fixed CSS selectors the library uses. Each is a valid selector, so
/// the wrappers below cannot be made to panic on selector syntax.
pub open spec fn known_selector(sel: Seq<char>) -> bool {
    ||| sel == "tr[bgcolor='#FFFFFF']>td"@
    ||| sel == r#"table[border="0"][width="100%"][cellpadding="0"][cellspacing="0"][class="blue"]"#@
    ||| sel == "tr:nth-child(2)"@
    ||| sel == "tr:nth-child(3)"@
    ||| sel == "tr:nth-child(4)"@
    ||| sel == "tr:nth-child(5)"@
    ||| sel == r#"table[width="100%"][class="blue"]"#@
    ||| sel == "tr[bgcolor]"@
    ||| sel == "td"@
    ||| sel == r#"table[width="97%"][cellspacing="0"][class="blue"]"#@
    ||| sel == r#"tr>td[align="left"]:nth-of-type(n+2)"#@
}

/// Relies on scraper's `Html::parse_document`, `Selector::parse`,
/// `Html::select` and `ElementRef::text`: the flattened text of every
/// element matching the selector, in document order.
#[verifier::external_body]
pub(crate) fn select_texts(doc: &str, sel: &str) -> (r: Vec<String>)
    requires
        known_selector(sel@),
    ensures
        string_views(r@) == document_texts(doc@, sel@),
{
    let selector = scraper::Selector::parse(sel).expect("fixed selector");
    let parsed = scraper::Html::parse_document(doc);
    parsed.select(&selector).map(|el| el.text().collect::<String>()).collect()
}

/// Relies on scraper's `Html::parse_document`, `Selector::parse`,
/// `Html::select` and `ElementRef::html`: the serialized HTML of every
/// element matching the selector, in document order.
#[verifier::external_body]
pub(crate) fn select_htmls(doc: &str, sel: &str) -> (r: Vec<String>)
    requires
        known_selector(sel@),
    ensures
        string_views(r@) == document_htmls(doc@, sel@),
{
    let selector = scraper::Selector::parse(sel).expect("fixed selector");
    let parsed = scraper::Html::parse_document(doc);
    parsed.select(&selector).map(|el| el.html()).collect()
}

/// Relies on scraper's `Html::parse_fragment`, `Selector::parse`,
/// `Html::select` and `ElementRef::text`: the flattened text of every
/// element of the fragment matching the selector, in document order.
#[verifier::external_body]
pub(crate) fn select_fragment_texts(frag: &str, sel: &str) -> (r: Vec<String>)
    requires
        known_selector(sel@),
    ensures
        string_views(r@) == fragment_texts(frag@, sel@),
{
    let selector = scraper::Selector::parse(sel).expect("fixed selector");
    let parsed = scraper::Html::parse_fragment(frag);
    parsed.select(&selector).map(|el| el.text().collect::<String>()).collect()
}

/// Relies on scraper's `Html::parse_fragment`, `Selector::parse`,
/// `Html::select`, `ElementRef::select` and `ElementRef::text`: for each
/// element matching `row_sel`, the flattened texts of its descendants
/// matching `cell_sel`.
#[verifier::external_body]
pub(crate) fn select_fragment_rows(frag: &str, row_sel: &str, cell_sel: &str) -> (r: Vec<
    Vec<String>,
>)
    requires
        known_selector(row_sel@),
        known_selector(cell_sel@),
    ensures
        string_views2(r@) == fragment_row_cells(frag@, row_sel@, cell_sel@),
{
    let rows = scraper::Selector::parse(row_sel).expect("fixed selector");
    let cells = scraper::Selector::parse(cell_sel).expect("fixed selector");
    let parsed = scraper::Html::parse_fragment(frag);
    parsed.select(&rows).map(
        |row| row.select(&cells).map(|c| c.text().collect::<String>()).collect(),
    ).collect()
}

} // verus!
