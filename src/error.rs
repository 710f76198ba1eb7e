//! The library's error type.
use vstd::prelude::*;

use crate::embedding::ApiError;

verus! {

/// What can go wrong in the pipeline; every error goes to the immediate caller.
#[derive(Clone, Debug, PartialEq, Eq)]
pub enum SemanticSearchError {
    /// A table could not be read as CSV (the reader's message).
    MalformedTable(String),
    /// A row has fewer columns than the format needs.
    MissingColumn { row: usize, expected: usize, found: usize },
    /// A stored vector field holds a component that is not a number.
    MalformedVector { row: usize },
    /// The configured batch count is zero.
    InvalidBatchCount,
    /// The provider's reply holds no embedding for this position of the batch.
    MissingEmbedding { index: usize },
    /// The provider's reply holds no embedding at all.
    EmptyEmbeddingResponse,
    /// The provider rejected the request with its own structured error.
    ApiError(ApiError),
    /// A reply could not be decoded as the payload its status calls for.
    JsonDeserialize(String),
    /// The tokenizer could not be built or could not tokenize the text.
    Tokenizer,
    /// A record could not be written in the store format.
    StoreWrite,
    /// Every generation batch has been processed already.
    RunFinished,
}

} // verus!
