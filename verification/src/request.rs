//! Requests to the API server.

use vstd::prelude::*;

verus! {

/// A request of `http`.
#[verifier::external_type_specification]
#[verifier::external_body]
#[verifier::reject_recursive_types(T)]
pub struct ExRequest<T>(http::Request<T>);

/// The request for an address that the builder of `http` makes, or why it makes none, in its words.
pub uninterp spec fn built_request(uri: Seq<char>) -> Result<http::Request<Vec<u8>>, Seq<char>>;

/// `http::Request::builder` with an address and an empty body: whether there is such a request is
/// named `built_request`. What the request holds and which addresses are accepted is left unsaid.
#[verifier::external_body]
pub(crate) fn build_request(uri: &str) -> (r: Result<http::Request<Vec<u8>>, String>)
    ensures
        match r {
            Ok(request) => built_request(uri@) == Ok::<http::Request<Vec<u8>>, Seq<char>>(request),
            Err(text) => built_request(uri@) == Err::<http::Request<Vec<u8>>, Seq<char>>(text@),
        },
{
    http::Request::builder().uri(uri).body(Vec::new()).map_err(|e| e.to_string())
}

/// Whether a request is the one for an address, as far as there is any address and any request for
/// it.
pub open spec fn is_request_for(
    address: Option<Seq<char>>,
    request: Option<Result<http::Request<Vec<u8>>, String>>,
) -> bool {
    match request {
        Some(Ok(q)) => address is Some && built_request(address->0) == Ok::<
            http::Request<Vec<u8>>,
            Seq<char>,
        >(q),
        Some(Err(text)) => address is Some && built_request(address->0) == Err::<
            http::Request<Vec<u8>>,
            Seq<char>,
        >(text@),
        None => address is None,
    }
}

}
