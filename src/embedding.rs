//! Requests to and replies from the embedding provider.
use vstd::prelude::*;

use crate::error::SemanticSearchError;

verus! {

/// The model every request asks for.
pub const EMBEDDING_MODEL: &'static str = "text-embedding-ada-002";

/// The texts of one request: a single string or a batch of strings.
#[derive(Clone, Debug, PartialEq, Eq)]
pub enum EmbeddingInput {
    String(String),
    StringArray(Vec<String>),
}

impl EmbeddingInput {
    /// The texts, in order.
    pub open spec fn texts(&self) -> Seq<Seq<char>> {
        match self {
            EmbeddingInput::String(s) => seq![s@],
            EmbeddingInput::StringArray(v) => v@.map_values(|x: String| x@),
        }
    }
}

/// One request to the provider's embeddings endpoint.
#[derive(Clone, Debug, PartialEq, Eq)]
pub struct EmbeddingRequest {
    pub model: String,
    pub input: EmbeddingInput,
    pub user: Option<String>,
}

/// One embedding of a reply; each component is kept as the decimal text
/// it is stored as.
#[derive(Clone, Debug, PartialEq, Eq)]
pub struct EmbeddingData {
    pub embedding: Vec<String>,
}

/// A successful reply: one embedding per input text, in input order.
#[derive(Clone, Debug, PartialEq, Eq)]
pub struct EmbeddingResponse {
    pub data: Vec<EmbeddingData>,
}

/// The provider's structured error description.
#[derive(Clone, Debug, PartialEq, Eq)]
pub struct ApiError {
    pub message: String,
    pub error_type: String,
    pub param: Option<String>,
    pub code: Option<String>,
}

/// A reply body, decoded as the payload its status calls for.
#[derive(Clone, Debug, PartialEq, Eq)]
pub enum ProviderBody {
    Embeddings(EmbeddingResponse),
    Error(ApiError),
    /// The body did not decode; the decoder's message.
    Undecodable(String),
}

/// A 2xx status.
pub open spec fn is_success_spec(status: u16) -> bool {
    200 <= status < 300
}

/// Whether an HTTP status is a success, so that the body is an embedding
/// reply rather than an error description.
pub fn is_success_status(status: u16) -> (r: bool)
    ensures
        r == is_success_spec(status),
{
    200 <= status && status < 300
}

/// Classifies a reply: embeddings under a success status, the provider's own
/// error under any other status, and a decoding error otherwise.
pub fn classify_response(status: u16, body: ProviderBody) -> (r: Result<
    EmbeddingResponse,
    SemanticSearchError,
>)
    ensures
        match body {
            ProviderBody::Embeddings(e) => if is_success_spec(status) {
                r == Ok::<EmbeddingResponse, SemanticSearchError>(e)
            } else {
                r matches Err(SemanticSearchError::JsonDeserialize(_))
            },
            ProviderBody::Error(e) => if is_success_spec(status) {
                r matches Err(SemanticSearchError::JsonDeserialize(_))
            } else {
                r == Err::<EmbeddingResponse, SemanticSearchError>(SemanticSearchError::ApiError(e))
            },
            ProviderBody::Undecodable(m) => r == Err::<EmbeddingResponse, SemanticSearchError>(
                SemanticSearchError::JsonDeserialize(m),
            ),
        },
{
    let success = is_success_status(status);
    match body {
        ProviderBody::Embeddings(e) => {
            if success {
                Ok(e)
            } else {
                Err(SemanticSearchError::JsonDeserialize(String::new()))
            }
        },
        ProviderBody::Error(e) => {
            if success {
                Err(SemanticSearchError::JsonDeserialize(String::new()))
            } else {
                Err(SemanticSearchError::ApiError(e))
            }
        },
        ProviderBody::Undecodable(m) => Err(SemanticSearchError::JsonDeserialize(m)),
    }
}

} // verus!
