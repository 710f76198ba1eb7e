//! The embedding provider client: where requests go and what they carry.
use vstd::prelude::*;
use vstd::string::*;

use crate::embedding::{EmbeddingInput, EmbeddingRequest, EMBEDDING_MODEL};

verus! {

/// Default v1 API base url.
pub const API_BASE: &'static str = "https://lai.rambhat.la/v1";

/// Name for the organization header.
pub const ORGANIZATION_HEADER: &'static str = "OpenAI-Organization";

/// Name for the authentication header.
pub const AUTHORIZATION_HEADER: &'static str = "Authorization";

/// Path of the embeddings endpoint below the API base.
pub const EMBEDDINGS_PATH: &'static str = "/embeddings";

/// Scheme word before the key in the authentication header.
pub const BEARER_PREFIX: &'static str = "Bearer ";

/// A container for the api key, the base url and the organization id.
#[derive(Clone, Debug)]
pub struct Client {
    api_key: String,
    api_base: String,
    org_id: String,
}

impl Client {
    pub closed spec fn key_spec(&self) -> Seq<char> {
        self.api_key@
    }

    pub closed spec fn base_spec(&self) -> Seq<char> {
        self.api_base@
    }

    pub closed spec fn org_spec(&self) -> Seq<char> {
        self.org_id@
    }

    pub fn api_base(&self) -> (r: &str)
        ensures
            r@ == self.base_spec(),
    {
        self.api_base.as_str()
    }

    pub fn api_key(&self) -> (r: &str)
        ensures
            r@ == self.key_spec(),
    {
        self.api_key.as_str()
    }

    /// A client for the default base url, with no organization.
    pub fn new(api_key: String) -> (r: Self)
        ensures
            r.key_spec() == api_key@,
            r.base_spec() == API_BASE@,
            r.org_spec().len() == 0,
    {
        Client { api_key, api_base: String::from_str(API_BASE), org_id: String::new() }
    }

    /// The same client, sending its requests to another base url.
    pub fn with_api_base(self, api_base: String) -> (r: Self)
        ensures
            r.key_spec() == self.key_spec(),
            r.base_spec() == api_base@,
            r.org_spec() == self.org_spec(),
    {
        Client { api_base, ..self }
    }

    /// The same client, naming an organization in its requests.
    pub fn with_organization(self, org_id: String) -> (r: Self)
        ensures
            r.key_spec() == self.key_spec(),
            r.base_spec() == self.base_spec(),
            r.org_spec() == org_id@,
    {
        Client { org_id, ..self }
    }

    /// Where embedding requests are posted: the base url, then the endpoint path.
    pub fn embeddings_url(&self) -> (r: String)
        ensures
            r@ == self.base_spec() + EMBEDDINGS_PATH@,
    {
        let mut url = self.api_base.clone();
        url.append(EMBEDDINGS_PATH);
        url
    }

    /// The bearer-token authentication header, as a (name, value) pair.
    pub fn authorization_header(&self) -> (r: (String, String))
        ensures
            r.0@ == AUTHORIZATION_HEADER@,
            r.1@ == BEARER_PREFIX@ + self.key_spec(),
    {
        let mut bearer = String::from_str(BEARER_PREFIX);
        bearer.append(self.api_key.as_str());
        (String::from_str(AUTHORIZATION_HEADER), bearer)
    }

    /// The extra headers of a request as (name, value) pairs: the
    /// organization where one is set, and nothing else.
    pub fn headers(&self) -> (r: Vec<(String, String)>)
        ensures
            r@.len() == if self.org_spec().len() == 0 {
                0int
            } else {
                1int
            },
            self.org_spec().len() != 0 ==> r@[0].0@ == ORGANIZATION_HEADER@ && r@[0].1@
                == self.org_spec(),
    {
        let mut headers: Vec<(String, String)> = Vec::new();
        if !self.org_id.as_str().is_empty() {
            headers.push((String::from_str(ORGANIZATION_HEADER), self.org_id.clone()));
        }
        headers
    }

    /// A request for the fixed model over the given texts.
    pub fn create_embedding_request(&self, input: EmbeddingInput) -> (r: EmbeddingRequest)
        ensures
            r.model@ == EMBEDDING_MODEL@,
            r.input == input,
            r.user is None,
    {
        EmbeddingRequest { model: String::from_str(EMBEDDING_MODEL), input, user: None }
    }
}

} // verus!
