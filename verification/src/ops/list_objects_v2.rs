//! Listing the objects of a bucket.

pub mod read;

use vstd::prelude::*;
use vstd::string::*;
use crate::dto::{
    CommonPrefix, ListObjectsV2Error, ListObjectsV2Output, ListObjectsV2Request, Object, Owner,
};
use crate::error::{error_response, XmlErrorResponse};
use crate::error_code::S3ErrorCode;
use crate::headers::names::X_AMZ_REQUEST_PAYER;
use crate::headers::HeaderView;
use crate::output::{S3Error, S3Output, S3Result};
use crate::query::GetQuery;
use crate::request::{text_field, ExtractError, Request};
use crate::response::{document, BodyView, Response, ResponseView};
use crate::text::{bool_field, int_field, option_bool_text, option_int_text};
use crate::xml::{
    close_tag, lemma_extend, lemma_render_element, lemma_sequence_ok, open_close_written,
    open_tag, option_text, optional_element_written, optional_nested_written, render,
    sequence_written, valid_name, XmlBody, XmlError, XmlEvent, XmlWriter,
};

verus! {

/// Builds the request value: the bucket as given in the path, the listing
/// parameters as given in the query, and the requester-pays header read as
/// text. A malformed header fails the extraction.
pub fn extract(req: &Request, query: GetQuery, bucket: &str) -> (r: Result<
    ListObjectsV2Request,
    ExtractError,
>)
    ensures
        match text_field(req.headers@, X_AMZ_REQUEST_PAYER@) {
            Ok(payer) => r matches Ok(input) && {
                &&& input.bucket@ == bucket@
                &&& input.continuation_token == query.continuation_token
                &&& input.delimiter == query.delimiter
                &&& input.encoding_type == query.encoding_type
                &&& input.fetch_owner == query.fetch_owner
                &&& input.max_keys == query.max_keys
                &&& input.prefix == query.prefix
                &&& input.start_after == query.start_after
                &&& option_text(input.request_payer) == payer
            },
            Err(e) => r matches Err(err) && err@ == e,
        },
{
    let mut input = ListObjectsV2Request {
        bucket: String::from_str(bucket),
        continuation_token: query.continuation_token,
        delimiter: query.delimiter,
        encoding_type: query.encoding_type,
        fetch_owner: query.fetch_owner,
        max_keys: query.max_keys,
        prefix: query.prefix,
        request_payer: None,
        start_after: query.start_after,
    };
    req.assign_from_optional_header(X_AMZ_REQUEST_PAYER, &mut input.request_payer)?;
    Ok(input)
}

impl ListObjectsV2Error {
    /// The canonical code the variant is bound to.
    pub open spec fn code_of(&self) -> S3ErrorCode {
        match self {
            ListObjectsV2Error::NoSuchBucket(_) => S3ErrorCode::NoSuchBucket,
        }
    }

    /// The message the value carries.
    pub open spec fn message_of(&self) -> Seq<char> {
        match self {
            ListObjectsV2Error::NoSuchBucket(msg) => msg@,
        }
    }

    /// The canonical code the variant is bound to.
    pub fn code(&self) -> (code: S3ErrorCode)
        ensures
            code == self.code_of(),
    {
        match self {
            ListObjectsV2Error::NoSuchBucket(_) => S3ErrorCode::NoSuchBucket,
        }
    }
}

impl S3Output for ListObjectsV2Error {
    /// The standard error document for the variant's code, with the carried
    /// message in place of the code's default.
    open spec fn response(&self) -> Result<ResponseView, S3Error> {
        Ok(error_response(self.code_of(), self.message_of(), None, None))
    }

    fn try_into_response(self) -> (r: S3Result<Response>) {
        let resp = match self {
            ListObjectsV2Error::NoSuchBucket(msg) => XmlErrorResponse::from_code_message(
                S3ErrorCode::NoSuchBucket,
                Some(msg),
            ),
        };
        resp.try_into_response()
    }
}

/// The names of an object's elements are valid.
pub proof fn lemma_object_names_are_valid()
    ensures
        valid_name("Key"@),
        valid_name("LastModified"@),
        valid_name("ETag"@),
        valid_name("Size"@),
        valid_name("StorageClass"@),
        valid_name("Owner"@),
        valid_name("ID"@),
        valid_name("DisplayName"@),
{
    reveal_strlit("Key");
    reveal_strlit("LastModified");
    reveal_strlit("ETag");
    reveal_strlit("Size");
    reveal_strlit("StorageClass");
    reveal_strlit("Owner");
    reveal_strlit("ID");
    reveal_strlit("DisplayName");
}

/// The names of the listing's first elements and of its root are valid.
pub proof fn lemma_head_names()
    ensures
        valid_name("ListBucketResult"@),
        valid_name("IsTruncated"@),
        valid_name("Contents"@),
        valid_name("Name"@),
        valid_name("Prefix"@),
        valid_name("Delimiter"@),
        valid_name("MaxKeys"@),
{
    reveal_strlit("ListBucketResult");
    reveal_strlit("IsTruncated");
    reveal_strlit("Contents");
    reveal_strlit("Name");
    reveal_strlit("Prefix");
    reveal_strlit("Delimiter");
    reveal_strlit("MaxKeys");
}

/// The names of the listing's last elements are valid.
pub proof fn lemma_tail_names()
    ensures
        valid_name("CommonPrefixes"@),
        valid_name("EncodingType"@),
        valid_name("KeyCount"@),
        valid_name("ContinuationToken"@),
        valid_name("NextContinuationToken"@),
        valid_name("StartAfter"@),
{
    reveal_strlit("CommonPrefixes");
    reveal_strlit("EncodingType");
    reveal_strlit("KeyCount");
    reveal_strlit("ContinuationToken");
    reveal_strlit("NextContinuationToken");
    reveal_strlit("StartAfter");
}

/// The owner of an object as it is written inside `Contents`: `ID` before
/// `DisplayName`.
pub struct ObjectOwner<'a>(pub &'a Owner);

impl<'a> XmlBody for ObjectOwner<'a> {
    /// `ID`, then `DisplayName`, each where present.
    open spec fn written(&self) -> Seq<XmlEvent> {
        optional_element_written("ID"@, option_text(self.0.id)) + optional_element_written(
            "DisplayName"@,
            option_text(self.0.display_name),
        )
    }

    open spec fn outcome(&self) -> Result<(), XmlError> {
        Ok(())
    }

    fn write_to(&self, w: &mut XmlWriter) -> (r: Result<(), XmlError>) {
        proof {
            lemma_object_names_are_valid();
        }
        w.optional_element("ID", &self.0.id)?;
        w.optional_element("DisplayName", &self.0.display_name)?;
        assert(w.events() =~= old(w).events() + self.written());
        Ok(())
    }
}

/// The events of an object's owner: `Owner` around `ID` and `DisplayName`
/// when the object has an owner, nothing otherwise.
pub open spec fn object_owner_written(owner: Option<Owner>) -> Seq<XmlEvent> {
    match owner {
        Some(o) => open_close_written("Owner"@, &ObjectOwner(&o)),
        None => Seq::empty(),
    }
}

impl XmlBody for Object {
    /// `Key`, `LastModified`, `ETag`, `Size`, `StorageClass` and `Owner`,
    /// in that order, each where present.
    open spec fn written(&self) -> Seq<XmlEvent> {
        optional_element_written("Key"@, option_text(self.key)) + optional_element_written(
            "LastModified"@,
            option_text(self.last_modified),
        ) + optional_element_written("ETag"@, option_text(self.e_tag)) + optional_element_written(
            "Size"@,
            option_int_text(self.size),
        ) + optional_element_written("StorageClass"@, option_text(self.storage_class))
            + object_owner_written(self.owner)
    }

    open spec fn outcome(&self) -> Result<(), XmlError> {
        Ok(())
    }

    fn write_to(&self, w: &mut XmlWriter) -> (r: Result<(), XmlError>) {
        proof {
            lemma_object_names_are_valid();
        }
        w.optional_element("Key", &self.key)?;
        w.optional_element("LastModified", &self.last_modified)?;
        w.optional_element("ETag", &self.e_tag)?;
        let size = int_field(self.size);
        assert(option_text(size) == option_int_text(self.size));
        w.optional_element("Size", &size)?;
        w.optional_element("StorageClass", &self.storage_class)?;
        match &self.owner {
            Some(owner) => {
                w.open_close("Owner", &ObjectOwner(owner))?;
            },
            None => {},
        }
        assert(w.events() =~= old(w).events() + self.written());
        Ok(())
    }
}

/// The events of the common prefixes: one `Prefix` element per item that
/// has a prefix, in the order given.
pub open spec fn prefixes_written(items: Seq<CommonPrefix>) -> Seq<XmlEvent>
    decreases items.len(),
{
    if items.len() == 0 {
        Seq::empty()
    } else {
        prefixes_written(items.drop_last()) + optional_element_written(
            "Prefix"@,
            option_text(items.last().prefix),
        )
    }
}

impl XmlBody for Vec<CommonPrefix> {
    open spec fn written(&self) -> Seq<XmlEvent> {
        prefixes_written(self@)
    }

    open spec fn outcome(&self) -> Result<(), XmlError> {
        Ok(())
    }

    fn write_to(&self, w: &mut XmlWriter) -> (r: Result<(), XmlError>) {
        proof {
            lemma_head_names();
        }
        let ghost before = w.events();
        let ghost stack = w.open_elements();
        let mut i: usize = 0;
        assert(self@.take(0) =~= Seq::<CommonPrefix>::empty());
        assert(before + Seq::<XmlEvent>::empty() =~= before);
        while i < self.len()
            invariant
                i <= self.len(),
                valid_name("Prefix"@),
                w.wf(),
                stack == old(w).open_elements(),
                before == old(w).events(),
                w.open_elements() == stack,
                w.events() == before + prefixes_written(self@.take(i as int)),
            decreases self.len() - i,
        {
            assert(self@.take(i + 1).drop_last() =~= self@.take(i as int));
            assert(self@.take(i + 1).last() == self@[i as int]);
            w.optional_element("Prefix", &self[i].prefix)?;
            assert(w.events() =~= before + prefixes_written(self@.take(i + 1)));
            i += 1;
        }
        assert(self@.take(i as int) =~= self@);
        Ok(())
    }
}

/// The events of the listed objects: one `Contents` element per object, in
/// the order given; nothing when there is no list.
pub open spec fn contents_written(contents: Option<Vec<Object>>) -> Seq<XmlEvent> {
    match contents {
        Some(objects) => sequence_written("Contents"@, objects@),
        None => Seq::empty(),
    }
}

/// The first part of the listing: `IsTruncated`, the `Contents` elements,
/// `Name`, `Prefix`, `Delimiter` and `MaxKeys`, in that order, each where
/// present.
pub open spec fn head_written(out: &ListObjectsV2Output) -> Seq<XmlEvent> {
    optional_element_written("IsTruncated"@, option_bool_text(out.is_truncated)) + contents_written(
        out.contents,
    ) + optional_element_written("Name"@, option_text(out.name)) + optional_element_written(
        "Prefix"@,
        option_text(out.prefix),
    ) + optional_element_written("Delimiter"@, option_text(out.delimiter))
        + optional_element_written("MaxKeys"@, option_int_text(out.max_keys))
}

/// The second part of the listing: `CommonPrefixes`, `EncodingType`,
/// `KeyCount`, `ContinuationToken`, `NextContinuationToken` and
/// `StartAfter`, in that order, each where present.
pub open spec fn tail_written(out: &ListObjectsV2Output) -> Seq<XmlEvent> {
    optional_nested_written("CommonPrefixes"@, out.common_prefixes) + optional_element_written(
        "EncodingType"@,
        option_text(out.encoding_type),
    ) + optional_element_written("KeyCount"@, option_int_text(out.key_count))
        + optional_element_written("ContinuationToken"@, option_text(out.continuation_token))
        + optional_element_written(
        "NextContinuationToken"@,
        option_text(out.next_continuation_token),
    ) + optional_element_written("StartAfter"@, option_text(out.start_after))
}

fn write_head(out: &ListObjectsV2Output, w: &mut XmlWriter) -> (r: Result<(), XmlError>)
    requires
        old(w).wf(),
    ensures
        final(w).wf(),
        final(w).open_elements() == old(w).open_elements(),
        final(w).events() == old(w).events() + head_written(out),
        r is Ok,
{
    proof {
        lemma_head_names();
    }
    let ghost before = w.events();
    let is_truncated = bool_field(out.is_truncated);
    assert(option_text(is_truncated) == option_bool_text(out.is_truncated));
    w.optional_element("IsTruncated", &is_truncated)?;
    let ghost done = optional_element_written("IsTruncated"@, option_bool_text(out.is_truncated));
    assert(w.events() == before + done);
    match &out.contents {
        Some(objects) => {
            proof {
                lemma_sequence_ok("Contents"@, objects@);
            }
            w.sequence_element("Contents", objects)?;
        },
        None => {
            assert(w.events() + Seq::<XmlEvent>::empty() =~= w.events());
        },
    }
    proof {
        lemma_extend(before, done, contents_written(out.contents));
        done = done + contents_written(out.contents);
    }
    assert(w.events() == before + done);
    w.optional_element("Name", &out.name)?;
    proof {
        let piece = optional_element_written("Name"@, option_text(out.name));
        lemma_extend(before, done, piece);
        done = done + piece;
    }
    w.optional_element("Prefix", &out.prefix)?;
    proof {
        let piece = optional_element_written("Prefix"@, option_text(out.prefix));
        lemma_extend(before, done, piece);
        done = done + piece;
    }
    w.optional_element("Delimiter", &out.delimiter)?;
    proof {
        let piece = optional_element_written("Delimiter"@, option_text(out.delimiter));
        lemma_extend(before, done, piece);
        done = done + piece;
    }
    let max_keys = int_field(out.max_keys);
    assert(option_text(max_keys) == option_int_text(out.max_keys));
    w.optional_element("MaxKeys", &max_keys)?;
    proof {
        let piece = optional_element_written("MaxKeys"@, option_int_text(out.max_keys));
        lemma_extend(before, done, piece);
        done = done + piece;
    }
    assert(done == head_written(out));
    Ok(())
}

fn write_tail(out: &ListObjectsV2Output, w: &mut XmlWriter) -> (r: Result<(), XmlError>)
    requires
        old(w).wf(),
    ensures
        final(w).wf(),
        final(w).open_elements() == old(w).open_elements(),
        final(w).events() == old(w).events() + tail_written(out),
        r is Ok,
{
    proof {
        lemma_tail_names();
    }
    let ghost before = w.events();
    w.optional_nested("CommonPrefixes", &out.common_prefixes)?;
    let ghost done = optional_nested_written("CommonPrefixes"@, out.common_prefixes);
    assert(w.events() == before + done);
    w.optional_element("EncodingType", &out.encoding_type)?;
    proof {
        let piece = optional_element_written("EncodingType"@, option_text(out.encoding_type));
        lemma_extend(before, done, piece);
        done = done + piece;
    }
    let key_count = int_field(out.key_count);
    assert(option_text(key_count) == option_int_text(out.key_count));
    w.optional_element("KeyCount", &key_count)?;
    proof {
        let piece = optional_element_written("KeyCount"@, option_int_text(out.key_count));
        lemma_extend(before, done, piece);
        done = done + piece;
    }
    w.optional_element("ContinuationToken", &out.continuation_token)?;
    proof {
        let piece = optional_element_written(
            "ContinuationToken"@,
            option_text(out.continuation_token),
        );
        lemma_extend(before, done, piece);
        done = done + piece;
    }
    w.optional_element("NextContinuationToken", &out.next_continuation_token)?;
    proof {
        let piece = optional_element_written(
            "NextContinuationToken"@,
            option_text(out.next_continuation_token),
        );
        lemma_extend(before, done, piece);
        done = done + piece;
    }
    w.optional_element("StartAfter", &out.start_after)?;
    proof {
        let piece = optional_element_written("StartAfter"@, option_text(out.start_after));
        lemma_extend(before, done, piece);
        done = done + piece;
    }
    assert(done == tail_written(out));
    Ok(())
}

impl XmlBody for ListObjectsV2Output {
    /// The first part of the listing, then the second.
    open spec fn written(&self) -> Seq<XmlEvent> {
        head_written(self) + tail_written(self)
    }

    open spec fn outcome(&self) -> Result<(), XmlError> {
        Ok(())
    }

    fn write_to(&self, w: &mut XmlWriter) -> (r: Result<(), XmlError>) {
        write_head(self, w)?;
        write_tail(self, w)?;
        proof {
            lemma_extend(old(w).events(), head_written(self), tail_written(self));
        }
        Ok(())
    }
}

impl S3Output for ListObjectsV2Output {
    /// Status 200, no headers, and the document `ListBucketResult` around
    /// the listing.
    open spec fn response(&self) -> Result<ResponseView, S3Error> {
        Ok(
            ResponseView {
                status: 200,
                headers: Seq::<HeaderView>::empty(),
                body: BodyView::Xml(render(document("ListBucketResult"@, self.written()))),
            },
        )
    }

    fn try_into_response(self) -> (r: S3Result<Response>) {
        proof {
            lemma_head_names();
        }
        let mut res = Response::new();
        match res.set_xml_body(4096, "ListBucketResult", &self) {
            Ok(()) => Ok(res),
            Err(e) => Err(S3Error::Body(e)),
        }
    }
}

/// Whether no field of the output is present.
pub open spec fn all_absent(out: &ListObjectsV2Output) -> bool {
    &&& out.common_prefixes is None
    &&& out.contents is None
    &&& out.continuation_token is None
    &&& out.delimiter is None
    &&& out.encoding_type is None
    &&& out.is_truncated is None
    &&& out.key_count is None
    &&& out.max_keys is None
    &&& out.name is None
    &&& out.next_continuation_token is None
    &&& out.prefix is None
    &&& out.start_after is None
}

/// With no field present the body is the root element alone, with no
/// child.
pub proof fn lemma_empty_output(out: ListObjectsV2Output)
    requires
        all_absent(&out),
    ensures
        out.response() == Ok::<ResponseView, S3Error>(
            ResponseView {
                status: 200,
                headers: Seq::<HeaderView>::empty(),
                body: BodyView::Xml(open_tag("ListBucketResult"@) + close_tag("ListBucketResult"@)),
            },
        ),
{
    assert(head_written(&out) =~= Seq::<XmlEvent>::empty());
    assert(tail_written(&out) =~= Seq::<XmlEvent>::empty());
    assert(out.written() =~= Seq::<XmlEvent>::empty());
    lemma_render_element("ListBucketResult"@, out.written());
    assert(open_tag("ListBucketResult"@) + render(out.written()) + close_tag("ListBucketResult"@)
        =~= open_tag("ListBucketResult"@) + close_tag("ListBucketResult"@));
}

/// The variant alone decides the code: whatever the message, the error is
/// bound to the code for a missing bucket and has that code's status.
pub proof fn lemma_code_is_fixed(first: String, second: String)
    ensures
        ListObjectsV2Error::NoSuchBucket(first).code_of() == S3ErrorCode::NoSuchBucket,
        ListObjectsV2Error::NoSuchBucket(second).code_of() == S3ErrorCode::NoSuchBucket,
        ListObjectsV2Error::NoSuchBucket(first).response()->Ok_0.status == 404,
        ListObjectsV2Error::NoSuchBucket(second).response()->Ok_0.status == 404,
{
}

} // verus!
