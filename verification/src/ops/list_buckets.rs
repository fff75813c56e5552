//! Listing all buckets.

pub mod read;

use vstd::pervasive::unreached;
use vstd::prelude::*;
use vstd::string::*;
use crate::dto::{Bucket, ListBucketsError, ListBucketsOutput, ListBucketsRequest, Owner};
use crate::headers::HeaderView;
use crate::output::{S3Error, S3Output, S3Result};
use crate::request::ExtractError;
use crate::response::{document, BodyView, Response, ResponseView};
use crate::xml::{
    close_tag, lemma_render_element, lemma_sequence_ok, open_tag, option_text,
    optional_element_written, optional_nested_written, render, sequence_written, valid_name,
    XmlBody, XmlError, XmlEvent, XmlWriter,
};

verus! {

/// Builds the request value, which has no fields.
pub fn extract() -> (r: Result<ListBucketsRequest, ExtractError>)
    ensures
        r == Ok::<ListBucketsRequest, ExtractError>(ListBucketsRequest),
{
    Ok(ListBucketsRequest)
}

/// The names of the listing's elements are valid.
pub proof fn lemma_names()
    ensures
        valid_name("ListBucketsOutput"@),
        valid_name("Buckets"@),
        valid_name("Bucket"@),
        valid_name("CreationDate"@),
        valid_name("Name"@),
        valid_name("Owner"@),
        valid_name("DisplayName"@),
        valid_name("ID"@),
{
    reveal_strlit("ListBucketsOutput");
    reveal_strlit("Buckets");
    reveal_strlit("Bucket");
    reveal_strlit("CreationDate");
    reveal_strlit("Name");
    reveal_strlit("Owner");
    reveal_strlit("DisplayName");
    reveal_strlit("ID");
}

impl XmlBody for Bucket {
    /// `CreationDate`, then `Name`, each where present.
    open spec fn written(&self) -> Seq<XmlEvent> {
        optional_element_written("CreationDate"@, option_text(self.creation_date))
            + optional_element_written("Name"@, option_text(self.name))
    }

    open spec fn outcome(&self) -> Result<(), XmlError> {
        Ok(())
    }

    fn write_to(&self, w: &mut XmlWriter) -> (r: Result<(), XmlError>) {
        proof {
            lemma_names();
        }
        w.optional_element("CreationDate", &self.creation_date)?;
        w.optional_element("Name", &self.name)?;
        assert(w.events() =~= old(w).events() + self.written());
        Ok(())
    }
}

impl XmlBody for Vec<Bucket> {
    /// One `Bucket` element per bucket, in the order given.
    open spec fn written(&self) -> Seq<XmlEvent> {
        sequence_written("Bucket"@, self@)
    }

    open spec fn outcome(&self) -> Result<(), XmlError> {
        Ok(())
    }

    fn write_to(&self, w: &mut XmlWriter) -> (r: Result<(), XmlError>) {
        proof {
            lemma_names();
            lemma_sequence_ok("Bucket"@, self@);
        }
        w.sequence_element("Bucket", self)?;
        Ok(())
    }
}

impl XmlBody for Owner {
    /// `DisplayName`, then `ID`, each where present.
    open spec fn written(&self) -> Seq<XmlEvent> {
        optional_element_written("DisplayName"@, option_text(self.display_name))
            + optional_element_written("ID"@, option_text(self.id))
    }

    open spec fn outcome(&self) -> Result<(), XmlError> {
        Ok(())
    }

    fn write_to(&self, w: &mut XmlWriter) -> (r: Result<(), XmlError>) {
        proof {
            lemma_names();
        }
        w.optional_element("DisplayName", &self.display_name)?;
        w.optional_element("ID", &self.id)?;
        assert(w.events() =~= old(w).events() + self.written());
        Ok(())
    }
}

impl XmlBody for ListBucketsOutput {
    /// `Buckets` around the buckets, then `Owner`, each where present.
    open spec fn written(&self) -> Seq<XmlEvent> {
        optional_nested_written("Buckets"@, self.buckets) + optional_nested_written(
            "Owner"@,
            self.owner,
        )
    }

    open spec fn outcome(&self) -> Result<(), XmlError> {
        Ok(())
    }

    fn write_to(&self, w: &mut XmlWriter) -> (r: Result<(), XmlError>) {
        proof {
            lemma_names();
        }
        w.optional_nested("Buckets", &self.buckets)?;
        w.optional_nested("Owner", &self.owner)?;
        assert(w.events() =~= old(w).events() + self.written());
        Ok(())
    }
}

impl S3Output for ListBucketsOutput {
    /// Status 200, no headers, and the document `ListBucketsOutput` around
    /// the listing.
    open spec fn response(&self) -> Result<ResponseView, S3Error> {
        Ok(
            ResponseView {
                status: 200,
                headers: Seq::<HeaderView>::empty(),
                body: BodyView::Xml(render(document("ListBucketsOutput"@, self.written()))),
            },
        )
    }

    fn try_into_response(self) -> (r: S3Result<Response>) {
        proof {
            lemma_names();
        }
        let mut res = Response::new();
        match res.set_xml_body(4096, "ListBucketsOutput", &self) {
            Ok(()) => Ok(res),
            Err(e) => Err(S3Error::Body(e)),
        }
    }
}

/// With no field present the body is the root element alone, with no
/// child.
pub proof fn lemma_empty_output(out: ListBucketsOutput)
    requires
        out.buckets is None,
        out.owner is None,
    ensures
        out.response() == Ok::<ResponseView, S3Error>(
            ResponseView {
                status: 200,
                headers: Seq::<HeaderView>::empty(),
                body: BodyView::Xml(
                    open_tag("ListBucketsOutput"@) + close_tag("ListBucketsOutput"@),
                ),
            },
        ),
{
    assert(out.written() =~= Seq::<XmlEvent>::empty());
    lemma_render_element("ListBucketsOutput"@, out.written());
    assert(open_tag("ListBucketsOutput"@) + render(out.written()) + close_tag(
        "ListBucketsOutput"@,
    ) =~= open_tag("ListBucketsOutput"@) + close_tag("ListBucketsOutput"@));
}

impl S3Output for ListBucketsError {
    /// The type has no value, so there is no response to describe.
    open spec fn response(&self) -> Result<ResponseView, S3Error> {
        Err(S3Error::Body(XmlError::InvalidName))
    }

    /// Never runs: the argument would be a value of a type that has none.
    /// The contract says so by handing back the type's own invariant, which
    /// no value meets.
    fn try_into_response(self) -> (r: S3Result<Response>)
        ensures
            self.impossible(),
    {
        proof {
            use_type_invariant(&self);
        }
        unreached()
    }
}

} // verus!
