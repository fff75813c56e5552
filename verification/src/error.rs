//! The renderable error value and its standard XML document.

use vstd::prelude::*;
use vstd::string::*;
use crate::error_code::S3ErrorCode;
use crate::headers::HeaderView;
use crate::output::{S3Error, S3Output, S3Result};
use crate::response::{document, BodyView, Response, ResponseView};
use crate::xml::{
    leaf, option_text, optional_element_written, render, valid_name, XmlBody, XmlError, XmlEvent,
    XmlWriter,
};

verus! {

/// An error ready to be rendered: a canonical code, the message to show and
/// optional identification of the resource and the request.
pub struct XmlErrorResponse {
    pub code: S3ErrorCode,
    pub message: String,
    pub resource: Option<String>,
    pub request_id: Option<String>,
}

/// The message shown for `code`: the one supplied, or the code's default
/// when none is supplied.
pub open spec fn message_for(code: S3ErrorCode, message: Option<Seq<char>>) -> Seq<char> {
    match message {
        Some(m) => m,
        None => code.default_message(),
    }
}

/// The children of the error document's root, in order: `Code`, `Message`,
/// then `Resource` and `RequestId` where present.
pub open spec fn error_events(
    code: S3ErrorCode,
    message: Seq<char>,
    resource: Option<Seq<char>>,
    request_id: Option<Seq<char>>,
) -> Seq<XmlEvent> {
    leaf("Code"@, code.name()) + leaf("Message"@, message) + optional_element_written(
        "Resource"@,
        resource,
    ) + optional_element_written("RequestId"@, request_id)
}

/// The response of an error: the status bound to the code, no headers, and
/// the document `Error` around the error's children.
pub open spec fn error_response(
    code: S3ErrorCode,
    message: Seq<char>,
    resource: Option<Seq<char>>,
    request_id: Option<Seq<char>>,
) -> ResponseView {
    ResponseView {
        status: code.status(),
        headers: Seq::<HeaderView>::empty(),
        body: BodyView::Xml(
            render(document("Error"@, error_events(code, message, resource, request_id))),
        ),
    }
}

/// The names of the error document's elements are valid.
pub proof fn lemma_error_names()
    ensures
        valid_name("Error"@),
        valid_name("Code"@),
        valid_name("Message"@),
        valid_name("Resource"@),
        valid_name("RequestId"@),
{
    reveal_strlit("Error");
    reveal_strlit("Code");
    reveal_strlit("Message");
    reveal_strlit("Resource");
    reveal_strlit("RequestId");
}

/// The message never changes the status or the code name: two errors of one
/// code have the same status and the same `Code` element, whatever their
/// messages, and the message shown is the one supplied.
pub proof fn lemma_message_keeps_code(
    code: S3ErrorCode,
    first: Option<Seq<char>>,
    second: Option<Seq<char>>,
)
    ensures
        error_response(code, message_for(code, first), None, None).status == code.status(),
        error_response(code, message_for(code, second), None, None).status == code.status(),
        error_events(code, message_for(code, first), None, None) == leaf("Code"@, code.name())
            + leaf("Message"@, message_for(code, first)),
        error_events(code, message_for(code, second), None, None) == leaf("Code"@, code.name())
            + leaf("Message"@, message_for(code, second)),
{
    assert(error_events(code, message_for(code, first), None, None) =~= leaf("Code"@, code.name())
        + leaf("Message"@, message_for(code, first)));
    assert(error_events(code, message_for(code, second), None, None) =~= leaf(
        "Code"@,
        code.name(),
    ) + leaf("Message"@, message_for(code, second)));
}

impl XmlErrorResponse {
    /// An error with the given code and message. The status and the code
    /// name are those of the code, whatever the message; without a message
    /// the code's default message is used.
    pub fn from_code_message(code: S3ErrorCode, message: Option<String>) -> (e: XmlErrorResponse)
        ensures
            e.code == code,
            e.message@ == message_for(code, option_text(message)),
            e.resource is None,
            e.request_id is None,
    {
        let message = match message {
            Some(m) => m,
            None => String::from_str(code.as_default_message()),
        };
        XmlErrorResponse { code, message, resource: None, request_id: None }
    }
}

impl XmlBody for XmlErrorResponse {
    open spec fn written(&self) -> Seq<XmlEvent> {
        error_events(
            self.code,
            self.message@,
            option_text(self.resource),
            option_text(self.request_id),
        )
    }

    open spec fn outcome(&self) -> Result<(), XmlError> {
        Ok(())
    }

    fn write_to(&self, w: &mut XmlWriter) -> (r: Result<(), XmlError>) {
        proof {
            lemma_error_names();
        }
        let code = Some(String::from_str(self.code.as_str()));
        w.optional_element("Code", &code)?;
        let message = Some(self.message.clone());
        w.optional_element("Message", &message)?;
        w.optional_element("Resource", &self.resource)?;
        w.optional_element("RequestId", &self.request_id)?;
        assert(w.events() =~= old(w).events() + self.written());
        Ok(())
    }
}

impl S3Output for XmlErrorResponse {
    open spec fn response(&self) -> Result<ResponseView, S3Error> {
        Ok(
            error_response(
                self.code,
                self.message@,
                option_text(self.resource),
                option_text(self.request_id),
            ),
        )
    }

    fn try_into_response(self) -> (r: S3Result<Response>) {
        proof {
            lemma_error_names();
        }
        let mut res = Response::new();
        res.set_status(self.code.as_status_code());
        match res.set_xml_body(256, "Error", &self) {
            Ok(()) => Ok(res),
            Err(e) => Err(S3Error::Body(e)),
        }
    }
}

} // verus!
