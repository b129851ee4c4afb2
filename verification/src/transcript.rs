use vstd::prelude::*;

verus! {

use crate::errors::ItemError;

// What the first element matched by a CSS selector group contains, as
// scraper computes it: the document is parsed as HTML, the selector group is
// parsed, and the concatenated text of the first matching element's
// descendant text nodes, in document order, is returned. `None` when the
// selector group does not parse or no element matches. The result depends on
// the two strings alone.
pub uninterp spec fn selected_text(selector: Seq<char>, document: Seq<char>) -> Option<Seq<char>>;

/// The CSS selector for the content container: the `<pre>` element that is a
/// direct child of the element with class `single-post`.
pub open spec fn content_selector() -> Seq<char> {
    ".single-post>pre"@
}

/// Relies on scraper's Html::parse_document, Selector::parse, Html::select
/// and ElementRef::text: parsing and selection are deterministic in the two
/// strings, and `text` yields the descendant text nodes in document order.
#[verifier::external_body]
fn select_first_text(selector: &str, document: &str) -> (r: Option<String>)
    ensures
        match r {
            Some(t) => selected_text(selector@, document@) == Some(t@),
            None => selected_text(selector@, document@) is None,
        },
{
    let doc = scraper::Html::parse_document(document);
    let sel = match scraper::Selector::parse(selector) {
        Ok(s) => s,
        Err(_) => return None,
    };
    match doc.select(&sel).next() {
        Some(element) => Some(element.text().collect::<String>()),
        None => None,
    }
}

/// Extracts the transcript from a fetched content page: the text of the
/// first element matching the content selector, or `ParseError` when the
/// page has no such element.
pub fn extract_transcript(document: &str) -> (r: Result<String, ItemError>)
    ensures
        match r {
            Ok(t) => selected_text(content_selector(), document@) == Some(t@),
            Err(e) => e == ItemError::ParseError
                && selected_text(content_selector(), document@) is None,
        },
{
    match select_first_text(".single-post>pre", document) {
        Some(t) => Ok(t),
        None => Err(ItemError::ParseError),
    }
}

} // verus!
