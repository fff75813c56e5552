//! The response envelope: status, headers and body.

use vstd::prelude::*;
use crate::headers::{with_header, HeaderView, Headers};
use crate::xml::{
    balanced, element, open_close_outcome, render, texts_enclosed, XmlBody, XmlError, XmlEvent,
    XmlWriter,
};

verus! {

/// A response body.
pub enum Body {
    /// No body.
    Empty,
    /// Raw bytes.
    Bytes(Vec<u8>),
    /// An XML document.
    Xml(String),
}

/// A response body as plain values.
pub enum BodyView {
    Empty,
    Bytes(Seq<u8>),
    Xml(Seq<char>),
}

impl View for Body {
    type V = BodyView;

    open spec fn view(&self) -> BodyView {
        match self {
            Body::Empty => BodyView::Empty,
            Body::Bytes(bytes) => BodyView::Bytes(bytes@),
            Body::Xml(text) => BodyView::Xml(text@),
        }
    }
}

/// A response as plain values.
pub struct ResponseView {
    pub status: u16,
    pub headers: Seq<HeaderView>,
    pub body: BodyView,
}

/// A complete HTTP response.
pub struct Response {
    status: u16,
    headers: Headers,
    body: Body,
}

impl View for Response {
    type V = ResponseView;

    closed spec fn view(&self) -> ResponseView {
        ResponseView { status: self.status, headers: self.headers@, body: self.body@ }
    }
}

/// The events of a document with root element `root` around `inner`.
pub open spec fn document(root: Seq<char>, inner: Seq<XmlEvent>) -> Seq<XmlEvent> {
    element(root, inner)
}

impl Response {
    /// No header name occurs twice, case ignored.
    pub closed spec fn wf(&self) -> bool {
        self.headers.wf()
    }

    /// A response with status 200, no headers and no body.
    pub fn new() -> (res: Response)
        ensures
            res.wf(),
            res@ == (ResponseView {
                status: 200,
                headers: Seq::<HeaderView>::empty(),
                body: BodyView::Empty,
            }),
    {
        Response { status: 200, headers: Headers::new(), body: Body::Empty }
    }

    /// The status code.
    pub fn status(&self) -> (status: u16)
        ensures
            status == self@.status,
    {
        self.status
    }

    /// The headers.
    pub fn headers(&self) -> (headers: &Headers)
        ensures
            headers@ == self@.headers,
            self.wf() ==> headers.wf(),
    {
        &self.headers
    }

    /// The body.
    pub fn body(&self) -> (body: &Body)
        ensures
            body@ == self@.body,
    {
        &self.body
    }

    /// Sets the status code.
    pub fn set_status(&mut self, status: u16)
        ensures
            final(self).wf() == old(self).wf(),
            final(self)@ == (ResponseView { status, ..old(self)@ }),
    {
        self.status = status;
    }

    /// Writes the header `name` when `value` holds a value, in place of any
    /// header of that name; changes nothing when it holds none.
    pub fn set_if_present(&mut self, name: &str, value: Option<String>)
        requires
            old(self).wf(),
        ensures
            final(self).wf(),
            final(self)@ == match value {
                Some(v) => ResponseView {
                    headers: with_header(old(self)@.headers, name@, v@),
                    ..old(self)@
                },
                None => old(self)@,
            },
    {
        match value {
            Some(v) => {
                self.headers.set(name, v);
            },
            None => {},
        }
    }

    /// Builds an XML body with the single root element `root` around the
    /// children that `body` writes, and attaches it. When writing fails the
    /// partial text is dropped and the response is left as it was.
    /// `capacity_hint` sizes the buffer's first allocation.
    pub fn set_xml_body<B: XmlBody>(&mut self, capacity_hint: usize, root: &str, body: &B) -> (r:
        Result<(), XmlError>)
        ensures
            final(self).wf() == old(self).wf(),
            r == open_close_outcome(root@, body),
            r is Ok ==> {
                &&& final(self)@ == (ResponseView {
                    body: BodyView::Xml(render(document(root@, body.written()))),
                    ..old(self)@
                })
                &&& balanced(document(root@, body.written()))
                &&& texts_enclosed(document(root@, body.written()))
            },
            r is Err ==> final(self)@ == old(self)@,
    {
        let mut w = XmlWriter::new(capacity_hint);
        let r = w.open_close(root, body);
        match r {
            Ok(()) => {
                assert(w.events() =~= document(root@, body.written()));
                self.body = Body::Xml(w.finish());
            },
            Err(_) => {},
        }
        r
    }
}

} // verus!
