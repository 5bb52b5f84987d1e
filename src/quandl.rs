//! Credentials of a Quandl API client.
use vstd::prelude::*;

verus! {

/// Quandl API client: the key that authenticates its requests.
pub struct QuandlClient {
    api_key: String,
}

impl QuandlClient {
    /// A client authenticated by `api_key`.
    pub fn new(api_key: String) -> (r: QuandlClient)
        ensures
            r.api_key() == api_key@,
    {
        QuandlClient { api_key }
    }

    /// The key the client authenticates with.
    pub closed spec fn api_key(&self) -> Seq<char> {
        self.api_key@
    }

    /// The key the client authenticates with.
    pub fn key(&self) -> (r: &str)
        ensures
            r@ == self.api_key(),
    {
        self.api_key.as_str()
    }
}

} // verus!
