//! Creating a bucket.

use vstd::prelude::*;
use vstd::string::*;
use crate::dto::{CreateBucketError, CreateBucketOutput, CreateBucketRequest};
use crate::error::{error_response, XmlErrorResponse};
use crate::error_code::S3ErrorCode;
use crate::headers::names::LOCATION;
use crate::headers::{
    lemma_first_match, lemma_with_header, lookup, with_header, HeaderView, Headers,
};
use crate::output::{S3Error, S3Output, S3Result};
use crate::request::{ExtractError, Request};
use crate::response::{BodyView, Response, ResponseView};
use crate::xml::option_text;

verus! {

/// Builds the request value: the bucket as given in the path, every other
/// field unset.
pub fn extract(_req: &Request, bucket: &str) -> (r: Result<CreateBucketRequest, ExtractError>)
    ensures
        r matches Ok(input) && {
            &&& input.bucket@ == bucket@
            &&& input.acl is None
            &&& input.create_bucket_configuration is None
            &&& input.grant_full_control is None
            &&& input.grant_read is None
            &&& input.grant_read_acp is None
            &&& input.grant_write is None
            &&& input.grant_write_acp is None
            &&& input.object_lock_enabled_for_bucket is None
        },
{
    let input = CreateBucketRequest {
        acl: None,
        bucket: String::from_str(bucket),
        create_bucket_configuration: None,
        grant_full_control: None,
        grant_read: None,
        grant_read_acp: None,
        grant_write: None,
        grant_write_acp: None,
        object_lock_enabled_for_bucket: None,
    };
    Ok(input)
}

impl S3Output for CreateBucketOutput {
    /// Status 200, no body, and the `location` header when a location is
    /// present.
    open spec fn response(&self) -> Result<ResponseView, S3Error> {
        Ok(
            ResponseView {
                status: 200,
                headers: match self.location {
                    Some(location) => with_header(Seq::<HeaderView>::empty(), LOCATION@, location@),
                    None => Seq::<HeaderView>::empty(),
                },
                body: BodyView::Empty,
            },
        )
    }

    fn try_into_response(self) -> (r: S3Result<Response>) {
        let mut res = Response::new();
        res.set_if_present(LOCATION, self.location);
        Ok(res)
    }
}

impl CreateBucketError {
    /// The canonical code the variant is bound to.
    pub open spec fn code_of(&self) -> S3ErrorCode {
        match self {
            CreateBucketError::BucketAlreadyExists(_) => S3ErrorCode::BucketAlreadyExists,
            CreateBucketError::BucketAlreadyOwnedByYou(_) => S3ErrorCode::BucketAlreadyOwnedByYou,
        }
    }

    /// The message the value carries.
    pub open spec fn message_of(&self) -> Seq<char> {
        match self {
            CreateBucketError::BucketAlreadyExists(msg) => msg@,
            CreateBucketError::BucketAlreadyOwnedByYou(msg) => msg@,
        }
    }

    /// The canonical code the variant is bound to.
    pub fn code(&self) -> (code: S3ErrorCode)
        ensures
            code == self.code_of(),
    {
        match self {
            CreateBucketError::BucketAlreadyExists(_) => S3ErrorCode::BucketAlreadyExists,
            CreateBucketError::BucketAlreadyOwnedByYou(_) => S3ErrorCode::BucketAlreadyOwnedByYou,
        }
    }
}

impl S3Output for CreateBucketError {
    /// The standard error document for the variant's code, with the carried
    /// message in place of the code's default.
    open spec fn response(&self) -> Result<ResponseView, S3Error> {
        Ok(error_response(self.code_of(), self.message_of(), None, None))
    }

    fn try_into_response(self) -> (r: S3Result<Response>) {
        let resp = match self {
            CreateBucketError::BucketAlreadyExists(msg) => XmlErrorResponse::from_code_message(
                S3ErrorCode::BucketAlreadyExists,
                Some(msg),
            ),
            CreateBucketError::BucketAlreadyOwnedByYou(msg) => XmlErrorResponse::from_code_message(
                S3ErrorCode::BucketAlreadyOwnedByYou,
                Some(msg),
            ),
        };
        resp.try_into_response()
    }
}

/// With no location the response has no header and no body.
pub proof fn lemma_empty_output(out: CreateBucketOutput)
    requires
        out.location is None,
    ensures
        out.response() == Ok::<ResponseView, S3Error>(
            ResponseView {
                status: 200,
                headers: Seq::<HeaderView>::empty(),
                body: BodyView::Empty,
            },
        ),
{
}

/// The variant alone decides the code: whatever the message, each variant
/// is bound to its one code and has that code's status.
pub proof fn lemma_code_is_fixed(first: String, second: String)
    ensures
        CreateBucketError::BucketAlreadyExists(first).code_of()
            == S3ErrorCode::BucketAlreadyExists,
        CreateBucketError::BucketAlreadyExists(second).code_of()
            == S3ErrorCode::BucketAlreadyExists,
        CreateBucketError::BucketAlreadyOwnedByYou(first).code_of()
            == S3ErrorCode::BucketAlreadyOwnedByYou,
        CreateBucketError::BucketAlreadyOwnedByYou(second).code_of()
            == S3ErrorCode::BucketAlreadyOwnedByYou,
        CreateBucketError::BucketAlreadyExists(first).response()->Ok_0.status == 409,
        CreateBucketError::BucketAlreadyExists(second).response()->Ok_0.status == 409,
        CreateBucketError::BucketAlreadyOwnedByYou(first).response()->Ok_0.status == 409,
        CreateBucketError::BucketAlreadyOwnedByYou(second).response()->Ok_0.status == 409,
{
}

/// Reads an output value back from the headers of a response: the location
/// is the value of the `location` header, absent when there is no such
/// header.
pub fn parse_output(headers: &Headers) -> (out: CreateBucketOutput)
    ensures
        option_text(out.location) == lookup(headers@, LOCATION@),
{
    match headers.get(LOCATION) {
        Some(value) => CreateBucketOutput { location: Some(String::from_str(value)) },
        None => CreateBucketOutput { location: None },
    }
}

/// Round trip: reading back the headers of the response that an output
/// turns into gives the output's location again.
pub proof fn lemma_round_trip(out: CreateBucketOutput)
    ensures
        out.response() is Ok,
        lookup(out.response()->Ok_0.headers, LOCATION@) == option_text(out.location),
{
    let none = Seq::<HeaderView>::empty();
    match out.location {
        Some(location) => {
            lemma_with_header(none, LOCATION@, location@);
        },
        None => {
            lemma_first_match(none, LOCATION@);
        },
    }
}

} // verus!
