//! Addresses of gRPC services: whether tonic accepts a text as the address of
//! an endpoint.
use vstd::prelude::*;

verus! {

/// Whether `tonic::transport::Endpoint::from_shared` accepts `url` as an endpoint address.
pub uninterp spec fn endpoint_accepts(url: Seq<char>) -> bool;

/// Calls `tonic::transport::Endpoint::from_shared` on a copy of `url`, which
/// parses the address and opens no connection, and reports whether it returned
/// `Ok`. The contract claims that the answer depends on the text of `url`
/// alone; which texts tonic accepts (URIs, `unix:` socket paths) is left to
/// the name [`endpoint_accepts`] and not stated.
#[verifier::external_body]
pub(crate) fn endpoint_is_valid(url: &str) -> (r: bool)
    ensures
        r == endpoint_accepts(url@),
{
    tonic::transport::Endpoint::from_shared(url.to_string()).is_ok()
}

} // verus!
