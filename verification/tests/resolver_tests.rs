use transcript_fetch::errors::ResolveError;
use transcript_fetch::resolver::resolve_latest_from;

fn resolve(page: &str) -> Result<u32, ResolveError> {
    resolve_latest_from(&page.as_bytes().to_vec())
}

#[test]
fn latest_is_maximum() {
    let page = "<a href=\"/episode/3/\">three</a> <a href=\"/episode/10/\">ten</a> \
                <a href=\"/episode/7/\">seven</a>";
    assert_eq!(resolve(page), Ok(10));
}

#[test]
fn no_references_is_not_found() {
    let page = "<html><body>nothing to see here, not even /archive/12/ links</body></html>";
    assert_eq!(resolve(page), Err(ResolveError::NotFound));
}

#[test]
fn empty_page_is_not_found() {
    assert_eq!(resolve(""), Err(ResolveError::NotFound));
}

#[test]
fn malformed_reference_is_ignored() {
    let page = "/episode/abc/ and /episode/9/ and /episode/4/";
    assert_eq!(resolve(page), Ok(9));
}

#[test]
fn reference_needs_trailing_separator() {
    let page = "see /episode/12 and also /episode/5/";
    assert_eq!(resolve(page), Ok(5));
}

#[test]
fn reference_needs_digits() {
    let page = "see /episode// and /episode/";
    assert_eq!(resolve(page), Err(ResolveError::NotFound));
}

#[test]
fn leading_zeros_parse() {
    let page = "/episode/007/";
    assert_eq!(resolve(page), Ok(7));
}

#[test]
fn oversized_group_is_discarded() {
    let page = "/episode/99999999999999999999/ but /episode/4/ is fine";
    assert_eq!(resolve(page), Ok(4));
}

#[test]
fn largest_u32_is_kept() {
    let page = "/episode/4294967295/ and /episode/4294967296/";
    assert_eq!(resolve(page), Ok(4294967295));
}

#[test]
fn overlapping_references_all_count() {
    // The trailing separator of one reference may open the next.
    let page = "/episode/3/episode/7/";
    assert_eq!(resolve(page), Ok(7));
}

#[test]
fn single_reference() {
    assert_eq!(resolve("<a href=\"/episode/1/\"></a>"), Ok(1));
}
