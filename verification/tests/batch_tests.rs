use transcript_fetch::batch::process_item;
use transcript_fetch::batch::run_batch;
use transcript_fetch::batch::FetchResult;
use transcript_fetch::errors::ItemError;

fn page_with(text: &str) -> String {
    format!(
        "<html><body><div class=\"single-post\"><pre>{}</pre></div></body></html>",
        text
    )
}

#[test]
fn transport_error_is_fetch_error() {
    assert_eq!(
        process_item(&FetchResult::TransportError),
        Err(ItemError::FetchError)
    );
}

#[test]
fn fetched_body_yields_transcript() {
    let f = FetchResult::Body(page_with("the transcript"));
    assert_eq!(process_item(&f), Ok(String::from("the transcript")));
}

#[test]
fn body_without_container_is_parse_error() {
    let f = FetchResult::Body(String::from("<html><body><p>no pre here</p></body></html>"));
    assert_eq!(process_item(&f), Err(ItemError::ParseError));
}

#[test]
fn one_transport_failure_leaves_the_rest() {
    // Five items where item 3's fetch fails: four transcripts are stored,
    // none for item 3, and the batch still completes normally.
    let fetches = vec![
        FetchResult::Body(page_with("one")),
        FetchResult::Body(page_with("two")),
        FetchResult::TransportError,
        FetchResult::Body(page_with("four")),
        FetchResult::Body(page_with("five")),
    ];
    let outcomes = run_batch(&fetches);
    assert_eq!(outcomes.len(), 5);
    assert_eq!(outcomes[0], Ok(String::from("one")));
    assert_eq!(outcomes[1], Ok(String::from("two")));
    assert_eq!(outcomes[2], Err(ItemError::FetchError));
    assert_eq!(outcomes[3], Ok(String::from("four")));
    assert_eq!(outcomes[4], Ok(String::from("five")));
    let stored = outcomes.iter().filter(|o| o.is_ok()).count();
    assert_eq!(stored, 4);
}

#[test]
fn missing_container_leaves_other_items_unaffected() {
    let fetches = vec![
        FetchResult::Body(page_with("kept")),
        FetchResult::Body(String::from("<html><body>bare page</body></html>")),
        FetchResult::Body(page_with("also kept")),
    ];
    let outcomes = run_batch(&fetches);
    assert_eq!(outcomes[0], Ok(String::from("kept")));
    assert_eq!(outcomes[1], Err(ItemError::ParseError));
    assert_eq!(outcomes[2], Ok(String::from("also kept")));
}

#[test]
fn rerun_with_unchanged_content_is_identical() {
    let make = || {
        vec![
            FetchResult::Body(page_with("stable one")),
            FetchResult::TransportError,
            FetchResult::Body(page_with("stable three")),
        ]
    };
    let first = run_batch(&make());
    let second = run_batch(&make());
    assert_eq!(first, second);
}

#[test]
fn empty_batch_has_no_outcomes() {
    let outcomes = run_batch(&Vec::new());
    assert!(outcomes.is_empty());
}
