//! The canonical error codes, each with its fixed HTTP status and default
//! message.

use vstd::prelude::*;
use crate::text::str_eq;

verus! {

/// A canonical error code.
#[derive(Clone, Copy, Debug, PartialEq, Eq, Structural)]
pub enum S3ErrorCode {
    AccessDenied,
    BucketAlreadyExists,
    BucketAlreadyOwnedByYou,
    BucketNotEmpty,
    InternalError,
    InvalidArgument,
    InvalidBucketName,
    InvalidRequest,
    MalformedXML,
    MethodNotAllowed,
    MissingSecurityHeader,
    NoSuchBucket,
    NoSuchKey,
    NoSuchUpload,
    NotImplemented,
    PreconditionFailed,
}

/// Every canonical code, once each, in the order of their names.
pub open spec fn every_code() -> Seq<S3ErrorCode> {
    seq![
        S3ErrorCode::AccessDenied,
        S3ErrorCode::BucketAlreadyExists,
        S3ErrorCode::BucketAlreadyOwnedByYou,
        S3ErrorCode::BucketNotEmpty,
        S3ErrorCode::InternalError,
        S3ErrorCode::InvalidArgument,
        S3ErrorCode::InvalidBucketName,
        S3ErrorCode::InvalidRequest,
        S3ErrorCode::MalformedXML,
        S3ErrorCode::MethodNotAllowed,
        S3ErrorCode::MissingSecurityHeader,
        S3ErrorCode::NoSuchBucket,
        S3ErrorCode::NoSuchKey,
        S3ErrorCode::NoSuchUpload,
        S3ErrorCode::NotImplemented,
        S3ErrorCode::PreconditionFailed,
    ]
}

impl S3ErrorCode {
    /// The code's name as it appears on the wire.
    pub open spec fn name(self) -> Seq<char> {
        match self {
            S3ErrorCode::AccessDenied => "AccessDenied"@,
            S3ErrorCode::BucketAlreadyExists => "BucketAlreadyExists"@,
            S3ErrorCode::BucketAlreadyOwnedByYou => "BucketAlreadyOwnedByYou"@,
            S3ErrorCode::BucketNotEmpty => "BucketNotEmpty"@,
            S3ErrorCode::InternalError => "InternalError"@,
            S3ErrorCode::InvalidArgument => "InvalidArgument"@,
            S3ErrorCode::InvalidBucketName => "InvalidBucketName"@,
            S3ErrorCode::InvalidRequest => "InvalidRequest"@,
            S3ErrorCode::MalformedXML => "MalformedXML"@,
            S3ErrorCode::MethodNotAllowed => "MethodNotAllowed"@,
            S3ErrorCode::MissingSecurityHeader => "MissingSecurityHeader"@,
            S3ErrorCode::NoSuchBucket => "NoSuchBucket"@,
            S3ErrorCode::NoSuchKey => "NoSuchKey"@,
            S3ErrorCode::NoSuchUpload => "NoSuchUpload"@,
            S3ErrorCode::NotImplemented => "NotImplemented"@,
            S3ErrorCode::PreconditionFailed => "PreconditionFailed"@,
        }
    }

    /// The HTTP status bound to the code.
    pub open spec fn status(self) -> u16 {
        match self {
            S3ErrorCode::AccessDenied => 403,
            S3ErrorCode::BucketAlreadyExists => 409,
            S3ErrorCode::BucketAlreadyOwnedByYou => 409,
            S3ErrorCode::BucketNotEmpty => 409,
            S3ErrorCode::InternalError => 500,
            S3ErrorCode::InvalidArgument => 400,
            S3ErrorCode::InvalidBucketName => 400,
            S3ErrorCode::InvalidRequest => 400,
            S3ErrorCode::MalformedXML => 400,
            S3ErrorCode::MethodNotAllowed => 405,
            S3ErrorCode::MissingSecurityHeader => 400,
            S3ErrorCode::NoSuchBucket => 404,
            S3ErrorCode::NoSuchKey => 404,
            S3ErrorCode::NoSuchUpload => 404,
            S3ErrorCode::NotImplemented => 501,
            S3ErrorCode::PreconditionFailed => 412,
        }
    }

    /// The message used when the caller supplies none.
    pub open spec fn default_message(self) -> Seq<char> {
        match self {
            S3ErrorCode::AccessDenied => "Access Denied"@,
            S3ErrorCode::BucketAlreadyExists =>
                "The requested bucket name is not available. The bucket namespace is shared by all users of the system. Please select a different name and try again."@,
            S3ErrorCode::BucketAlreadyOwnedByYou =>
                "Your previous request to create the named bucket succeeded and you already own it."@,
            S3ErrorCode::BucketNotEmpty => "The bucket you tried to delete is not empty."@,
            S3ErrorCode::InternalError => "We encountered an internal error. Please try again."@,
            S3ErrorCode::InvalidArgument => "Invalid Argument"@,
            S3ErrorCode::InvalidBucketName => "The specified bucket is not valid."@,
            S3ErrorCode::InvalidRequest => "Invalid Request"@,
            S3ErrorCode::MalformedXML =>
                "The XML you provided was not well-formed or did not validate against our published schema."@,
            S3ErrorCode::MethodNotAllowed =>
                "The specified method is not allowed against this resource."@,
            S3ErrorCode::MissingSecurityHeader => "Your request is missing a required header."@,
            S3ErrorCode::NoSuchBucket => "The specified bucket does not exist."@,
            S3ErrorCode::NoSuchKey => "The specified key does not exist."@,
            S3ErrorCode::NoSuchUpload =>
                "The specified multipart upload does not exist. The upload ID might be invalid, or the multipart upload might have been aborted or completed."@,
            S3ErrorCode::NotImplemented =>
                "A header you provided implies functionality that is not implemented."@,
            S3ErrorCode::PreconditionFailed =>
                "At least one of the preconditions you specified did not hold."@,
        }
    }

    /// The code's name as it appears on the wire.
    pub fn as_str(self) -> (s: &'static str)
        ensures
            s@ == self.name(),
    {
        match self {
            S3ErrorCode::AccessDenied => "AccessDenied",
            S3ErrorCode::BucketAlreadyExists => "BucketAlreadyExists",
            S3ErrorCode::BucketAlreadyOwnedByYou => "BucketAlreadyOwnedByYou",
            S3ErrorCode::BucketNotEmpty => "BucketNotEmpty",
            S3ErrorCode::InternalError => "InternalError",
            S3ErrorCode::InvalidArgument => "InvalidArgument",
            S3ErrorCode::InvalidBucketName => "InvalidBucketName",
            S3ErrorCode::InvalidRequest => "InvalidRequest",
            S3ErrorCode::MalformedXML => "MalformedXML",
            S3ErrorCode::MethodNotAllowed => "MethodNotAllowed",
            S3ErrorCode::MissingSecurityHeader => "MissingSecurityHeader",
            S3ErrorCode::NoSuchBucket => "NoSuchBucket",
            S3ErrorCode::NoSuchKey => "NoSuchKey",
            S3ErrorCode::NoSuchUpload => "NoSuchUpload",
            S3ErrorCode::NotImplemented => "NotImplemented",
            S3ErrorCode::PreconditionFailed => "PreconditionFailed",
        }
    }

    /// The HTTP status bound to the code.
    pub fn as_status_code(self) -> (status: u16)
        ensures
            status == self.status(),
            400 <= status < 600,
    {
        match self {
            S3ErrorCode::AccessDenied => 403,
            S3ErrorCode::BucketAlreadyExists => 409,
            S3ErrorCode::BucketAlreadyOwnedByYou => 409,
            S3ErrorCode::BucketNotEmpty => 409,
            S3ErrorCode::InternalError => 500,
            S3ErrorCode::InvalidArgument => 400,
            S3ErrorCode::InvalidBucketName => 400,
            S3ErrorCode::InvalidRequest => 400,
            S3ErrorCode::MalformedXML => 400,
            S3ErrorCode::MethodNotAllowed => 405,
            S3ErrorCode::MissingSecurityHeader => 400,
            S3ErrorCode::NoSuchBucket => 404,
            S3ErrorCode::NoSuchKey => 404,
            S3ErrorCode::NoSuchUpload => 404,
            S3ErrorCode::NotImplemented => 501,
            S3ErrorCode::PreconditionFailed => 412,
        }
    }

    /// The message used when the caller supplies none.
    pub fn as_default_message(self) -> (s: &'static str)
        ensures
            s@ == self.default_message(),
    {
        match self {
            S3ErrorCode::AccessDenied => "Access Denied",
            S3ErrorCode::BucketAlreadyExists =>
                "The requested bucket name is not available. The bucket namespace is shared by all users of the system. Please select a different name and try again.",
            S3ErrorCode::BucketAlreadyOwnedByYou =>
                "Your previous request to create the named bucket succeeded and you already own it.",
            S3ErrorCode::BucketNotEmpty => "The bucket you tried to delete is not empty.",
            S3ErrorCode::InternalError => "We encountered an internal error. Please try again.",
            S3ErrorCode::InvalidArgument => "Invalid Argument",
            S3ErrorCode::InvalidBucketName => "The specified bucket is not valid.",
            S3ErrorCode::InvalidRequest => "Invalid Request",
            S3ErrorCode::MalformedXML =>
                "The XML you provided was not well-formed or did not validate against our published schema.",
            S3ErrorCode::MethodNotAllowed =>
                "The specified method is not allowed against this resource.",
            S3ErrorCode::MissingSecurityHeader => "Your request is missing a required header.",
            S3ErrorCode::NoSuchBucket => "The specified bucket does not exist.",
            S3ErrorCode::NoSuchKey => "The specified key does not exist.",
            S3ErrorCode::NoSuchUpload =>
                "The specified multipart upload does not exist. The upload ID might be invalid, or the multipart upload might have been aborted or completed.",
            S3ErrorCode::NotImplemented =>
                "A header you provided implies functionality that is not implemented.",
            S3ErrorCode::PreconditionFailed =>
                "At least one of the preconditions you specified did not hold.",
        }
    }

    /// The code with the given wire name, if there is one.
    pub fn from_name(name: &str) -> (code: Option<S3ErrorCode>)
        ensures
            match code {
                Some(c) => c.name() == name@,
                None => forall|c: S3ErrorCode| c.name() != name@,
            },
    {
        let all = S3ErrorCode::all();
        let mut i: usize = 0;
        while i < all.len()
            invariant
                i <= all.len(),
                forall|c: S3ErrorCode| #[trigger] all@.contains(c),
                forall|j: int| 0 <= j < i ==> (#[trigger] all@[j]).name() != name@,
            decreases all.len() - i,
        {
            let candidate = all[i];
            if str_eq(candidate.as_str(), name) {
                return Some(candidate);
            }
            i += 1;
        }
        assert forall|c: S3ErrorCode| c.name() != name@ by {
            assert(all@.contains(c));
        }
        None
    }

    /// Every canonical code, once each, in the order of their names.
    pub fn all() -> (codes: Vec<S3ErrorCode>)
        ensures
            codes@ == every_code(),
            forall|c: S3ErrorCode| #[trigger] codes@.contains(c),
            codes@.no_duplicates(),
    {
        let codes = vec![
            S3ErrorCode::AccessDenied,
            S3ErrorCode::BucketAlreadyExists,
            S3ErrorCode::BucketAlreadyOwnedByYou,
            S3ErrorCode::BucketNotEmpty,
            S3ErrorCode::InternalError,
            S3ErrorCode::InvalidArgument,
            S3ErrorCode::InvalidBucketName,
            S3ErrorCode::InvalidRequest,
            S3ErrorCode::MalformedXML,
            S3ErrorCode::MethodNotAllowed,
            S3ErrorCode::MissingSecurityHeader,
            S3ErrorCode::NoSuchBucket,
            S3ErrorCode::NoSuchKey,
            S3ErrorCode::NoSuchUpload,
            S3ErrorCode::NotImplemented,
            S3ErrorCode::PreconditionFailed,
        ];
        proof {
            assert(codes@ =~= every_code());
            assert forall|c: S3ErrorCode| #[trigger] codes@.contains(c) by {
                match c {
                    S3ErrorCode::AccessDenied => assert(codes@[0] == c),
                    S3ErrorCode::BucketAlreadyExists => assert(codes@[1] == c),
                    S3ErrorCode::BucketAlreadyOwnedByYou => assert(codes@[2] == c),
                    S3ErrorCode::BucketNotEmpty => assert(codes@[3] == c),
                    S3ErrorCode::InternalError => assert(codes@[4] == c),
                    S3ErrorCode::InvalidArgument => assert(codes@[5] == c),
                    S3ErrorCode::InvalidBucketName => assert(codes@[6] == c),
                    S3ErrorCode::InvalidRequest => assert(codes@[7] == c),
                    S3ErrorCode::MalformedXML => assert(codes@[8] == c),
                    S3ErrorCode::MethodNotAllowed => assert(codes@[9] == c),
                    S3ErrorCode::MissingSecurityHeader => assert(codes@[10] == c),
                    S3ErrorCode::NoSuchBucket => assert(codes@[11] == c),
                    S3ErrorCode::NoSuchKey => assert(codes@[12] == c),
                    S3ErrorCode::NoSuchUpload => assert(codes@[13] == c),
                    S3ErrorCode::NotImplemented => assert(codes@[14] == c),
                    S3ErrorCode::PreconditionFailed => assert(codes@[15] == c),
                }
            }
        }
        codes
    }
}

/// No two codes share a name: the name on the wire tells the code.
pub proof fn lemma_names_distinct(a: S3ErrorCode, b: S3ErrorCode)
    requires
        a.name() == b.name(),
    ensures
        a == b,
{
    reveal_strlit("AccessDenied");
    reveal_strlit("BucketAlreadyExists");
    reveal_strlit("BucketAlreadyOwnedByYou");
    reveal_strlit("BucketNotEmpty");
    reveal_strlit("InternalError");
    reveal_strlit("InvalidArgument");
    reveal_strlit("InvalidBucketName");
    reveal_strlit("InvalidRequest");
    reveal_strlit("MalformedXML");
    reveal_strlit("MethodNotAllowed");
    reveal_strlit("MissingSecurityHeader");
    reveal_strlit("NoSuchBucket");
    reveal_strlit("NoSuchKey");
    reveal_strlit("NoSuchUpload");
    reveal_strlit("NotImplemented");
    reveal_strlit("PreconditionFailed");
    assert("AccessDenied"@.len() == 12 && "AccessDenied"@[0] == 'A');
    assert("BucketAlreadyExists"@.len() == 19 && "BucketAlreadyExists"@[0] == 'B');
    assert("BucketAlreadyOwnedByYou"@.len() == 23 && "BucketAlreadyOwnedByYou"@[0] == 'B');
    assert("BucketNotEmpty"@.len() == 14 && "BucketNotEmpty"@[0] == 'B');
    assert("InternalError"@.len() == 13 && "InternalError"@[0] == 'I');
    assert("InvalidArgument"@.len() == 15 && "InvalidArgument"@[0] == 'I');
    assert("InvalidBucketName"@.len() == 17 && "InvalidBucketName"@[0] == 'I');
    assert("InvalidRequest"@.len() == 14 && "InvalidRequest"@[0] == 'I');
    assert("MalformedXML"@.len() == 12 && "MalformedXML"@[0] == 'M');
    assert("MethodNotAllowed"@.len() == 16 && "MethodNotAllowed"@[0] == 'M');
    assert("MissingSecurityHeader"@.len() == 21 && "MissingSecurityHeader"@[0] == 'M');
    assert("NoSuchBucket"@.len() == 12 && "NoSuchBucket"@[0] == 'N');
    assert("NoSuchKey"@.len() == 9 && "NoSuchKey"@[0] == 'N');
    assert("NoSuchUpload"@.len() == 12 && "NoSuchUpload"@[0] == 'N');
    assert("NotImplemented"@.len() == 14 && "NotImplemented"@[0] == 'N');
    assert("PreconditionFailed"@.len() == 18 && "PreconditionFailed"@[0] == 'P');
    assert("NoSuchBucket"@[6] == 'B');
    assert("NoSuchUpload"@[6] == 'U');
}

/// Every code is bound to the status of a client or server error.
pub proof fn lemma_status_is_an_error(code: S3ErrorCode)
    ensures
        400 <= code.status() < 600,
{
}

} // verus!
