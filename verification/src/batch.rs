use vstd::prelude::*;

verus! {

use crate::errors::ItemError;
use crate::transcript::content_selector;
use crate::transcript::extract_transcript;
use crate::transcript::selected_text;

/// What one item's network fetch produced: the page body, or a transport
/// failure (connection, timeout, unreadable response).
pub enum FetchResult {
    Body(String),
    TransportError,
}

/// The terminal outcome one item's fetch result determines: the transcript
/// to store, or the error to log. A transport failure is `FetchError`; a
/// fetched page without a content element is `ParseError`. Neither is ever
/// fatal to the batch.
pub open spec fn spec_outcome(f: FetchResult) -> Result<Seq<char>, ItemError> {
    match f {
        FetchResult::TransportError => Err(ItemError::FetchError),
        FetchResult::Body(page) => match selected_text(content_selector(), page@) {
            Some(t) => Ok(t),
            None => Err(ItemError::ParseError),
        },
    }
}

/// The executable outcome `r` carries exactly the model outcome `o`.
pub open spec fn outcome_matches(r: Result<String, ItemError>, o: Result<Seq<char>, ItemError>) -> bool {
    match r {
        Ok(t) => o == Ok::<Seq<char>, ItemError>(t@),
        Err(e) => o == Err::<Seq<char>, ItemError>(e),
    }
}

/// Decides one item's terminal outcome from its fetch result.
pub fn process_item(f: &FetchResult) -> (r: Result<String, ItemError>)
    ensures
        outcome_matches(r, spec_outcome(*f)),
{
    match f {
        FetchResult::TransportError => Err(ItemError::FetchError),
        FetchResult::Body(page) => extract_transcript(page.as_str()),
    }
}

/// The outcomes of a whole batch, one per fetch result, in item order.
pub open spec fn spec_outcomes(fetches: Seq<FetchResult>) -> Seq<Result<Seq<char>, ItemError>> {
    fetches.map_values(|f: FetchResult| spec_outcome(f))
}

/// Decides every item's terminal outcome. Item failures never abort the
/// batch: the result always holds one outcome per fetch result.
pub fn run_batch(fetches: &Vec<FetchResult>) -> (outcomes: Vec<Result<String, ItemError>>)
    ensures
        outcomes@.len() == fetches@.len(),
        forall|i: int| 0 <= i < fetches@.len()
            ==> outcome_matches(#[trigger] outcomes@[i], spec_outcomes(fetches@)[i]),
{
    let n = fetches.len();
    let mut outcomes: Vec<Result<String, ItemError>> = Vec::new();
    let mut idx: usize = 0;
    while idx < n
        invariant
            n == fetches@.len(),
            idx <= n,
            outcomes@.len() == idx,
            forall|i: int| 0 <= i < idx
                ==> outcome_matches(#[trigger] outcomes@[i], spec_outcome(fetches@[i])),
        decreases n - idx,
    {
        let r = process_item(&fetches[idx]);
        outcomes.push(r);
        idx = idx + 1;
    }
    outcomes
}

/// Re-running the batch over the same index range with unchanged remote
/// content yields identical outcomes: each item's stored transcript is a
/// function of its fetch result alone, so a second run writes the same
/// content to the same per-item file.
pub proof fn lemma_rerun_identical(first: Seq<FetchResult>, second: Seq<FetchResult>)
    requires
        first == second,
    ensures
        spec_outcomes(first) == spec_outcomes(second),
{
}

} // verus!
