//! The header names this layer reads and writes.

use vstd::prelude::*;

verus! {

/// The response header that carries a created bucket's location.
pub const LOCATION: &'static str = "location";

/// The request header by which the requester accepts to pay for the request.
pub const X_AMZ_REQUEST_PAYER: &'static str = "x-amz-request-payer";

} // verus!
