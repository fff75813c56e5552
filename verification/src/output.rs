//! The output contract: every operation output and every operation error
//! turns into a complete response in one uniform way.

use vstd::prelude::*;
use crate::response::{Response, ResponseView};
use crate::xml::XmlError;

verus! {

/// Why a response could not be built.
#[derive(Clone, Copy, Debug, PartialEq, Eq, Structural)]
pub enum S3Error {
    /// The body could not be written.
    Body(XmlError),
}

/// The result of building a response.
pub type S3Result<T> = Result<T, S3Error>;

/// A value that can be turned into a complete response.
pub trait S3Output: Sized {
    /// The response this value turns into, or why none can be built.
    spec fn response(&self) -> Result<ResponseView, S3Error>;

    /// Consumes the value and builds its response.
    fn try_into_response(self) -> (r: S3Result<Response>)
        ensures
            match r {
                Ok(res) => res.wf() && self.response() == Ok::<ResponseView, S3Error>(res@),
                Err(e) => self.response() == Err::<ResponseView, S3Error>(e),
            },
    ;
}

} // verus!
