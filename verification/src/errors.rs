use vstd::prelude::*;

verus! {

/// A failure of the latest-index resolution phase. Either kind aborts the
/// whole run: without an upper bound there is no work range.
#[derive(Clone, Copy, Debug, PartialEq, Eq, Structural)]
pub enum ResolveError {
    /// The listing page could not be fetched or its body could not be read.
    NetworkError,
    /// The listing page held no parseable index reference.
    NotFound,
}

/// A failure of one item's fetch-and-store unit of work. Each kind is
/// terminal for that item alone and never fails the batch.
#[derive(Clone, Copy, Debug, PartialEq, Eq, Structural)]
pub enum ItemError {
    /// The item's content page could not be fetched or read.
    FetchError,
    /// The page was fetched but no element matched the content selector.
    ParseError,
    /// The extracted content could not be written to its file.
    WriteError,
}

} // verus!
