use transcript_fetch::errors::ItemError;
use transcript_fetch::transcript::extract_transcript;

#[test]
fn extracts_content_text() {
    let page = "<html><body><div class=\"single-post\">\
                <pre>MACHINE: Welcome to the show.</pre>\
                </div></body></html>";
    assert_eq!(
        extract_transcript(page),
        Ok(String::from("MACHINE: Welcome to the show."))
    );
}

#[test]
fn concatenates_descendant_text_in_order() {
    let page = "<html><body><div class=\"single-post\">\
                <pre>alpha <b>beta</b> gamma</pre>\
                </div></body></html>";
    assert_eq!(extract_transcript(page), Ok(String::from("alpha beta gamma")));
}

#[test]
fn first_matching_element_wins() {
    let page = "<html><body>\
                <div class=\"single-post\"><pre>first</pre><pre>second</pre></div>\
                </body></html>";
    assert_eq!(extract_transcript(page), Ok(String::from("first")));
}

#[test]
fn missing_container_is_parse_error() {
    let page = "<html><body><div class=\"other\"><pre>text</pre></div></body></html>";
    assert_eq!(extract_transcript(page), Err(ItemError::ParseError));
}

#[test]
fn pre_must_be_direct_child() {
    let page = "<html><body><div class=\"single-post\">\
                <div><pre>nested too deep</pre></div>\
                </div></body></html>";
    assert_eq!(extract_transcript(page), Err(ItemError::ParseError));
}

#[test]
fn empty_document_is_parse_error() {
    assert_eq!(extract_transcript(""), Err(ItemError::ParseError));
}
