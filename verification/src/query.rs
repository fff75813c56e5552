//! The typed query parameters of a `GET` on a bucket, as the routing layer
//! hands them over.

use vstd::prelude::*;

verus! {

/// The query parameters of a `GET` on a bucket, already parsed and typed.
#[derive(Clone, Debug, Default, PartialEq, Eq)]
pub struct GetQuery {
    pub continuation_token: Option<String>,
    pub delimiter: Option<String>,
    pub encoding_type: Option<String>,
    pub fetch_owner: Option<bool>,
    pub max_keys: Option<i64>,
    pub prefix: Option<String>,
    pub start_after: Option<String>,
}

} // verus!
