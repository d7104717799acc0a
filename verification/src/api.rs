//! Where the exchange is reached.

use vstd::prelude::*;

verus! {

/// The exchange's public API at a base address.
#[derive(Debug, PartialEq, Eq)]
pub struct KrakenClient {
    pub base_url: String,
}

/// The address of `endpoint` under `base_url`: the two with a `/` between
/// them.
pub open spec fn endpoint_url(base_url: Seq<char>, endpoint: Seq<char>) -> Seq<char> {
    base_url + seq!['/'] + endpoint
}

impl KrakenClient {
    /// The address to which a request for `endpoint` goes.
    pub fn url(&self, endpoint: &str) -> (r: String)
        ensures
            r@ == endpoint_url(self.base_url@, endpoint@),
    {
        proof {
            reveal_strlit("/");
        }
        let r = self.base_url.clone().concat("/").concat(endpoint);
        assert("/"@ =~= seq!['/']);
        r
    }
}

} // verus!
