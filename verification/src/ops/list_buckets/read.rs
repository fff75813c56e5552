//! Reading a listing of buckets back from its body text.

use vstd::prelude::*;
use vstd::string::*;
use crate::dto::{bucket_views, Bucket, BucketView, ListBucketsOutput, ListBucketsOutputView};
use crate::ops::list_buckets::lemma_names;
use crate::ops::owner::{lemma_owner_fields, no_owner, owner_fields, read_owner_fields};
use crate::output::S3Output;
use crate::response::document;
use crate::text::str_eq;
use crate::xml::{
    option_text, optional_element_written, optional_nested_written, sequence_written, valid_name,
    XmlBody, XmlEvent,
};
use crate::xml_read::{
    leaf_text, lemma_leaf_text, lemma_readable_concat, lemma_readable_element,
    lemma_readable_optional, lemma_readable_sequence, lemma_scan_render, lemma_sequence_front,
    readable, scan, tokenize, Reader,
};

verus! {

/// A bucket with no field present.
pub open spec fn no_bucket() -> BucketView {
    BucketView { creation_date: None, name: None }
}

/// An output with no field present.
pub open spec fn no_output() -> ListBucketsOutputView {
    ListBucketsOutputView { buckets: None, owner: None }
}

/// The bucket that the leaf elements at the start of `rest` describe, on
/// top of `acc`, and what follows them. The elements `CreationDate` and
/// `Name` are taken in any order, up to the next end tag; any other element
/// is refused.
pub open spec fn bucket_fields(rest: Seq<XmlEvent>, acc: BucketView) -> Option<
    (BucketView, Seq<XmlEvent>),
>
    decreases rest.len(),
{
    if rest.len() == 0 {
        None
    } else if rest[0] is Close {
        Some((acc, rest))
    } else {
        match leaf_text(rest) {
            Some((text, after)) if after.len() < rest.len() => {
                if rest[0]->Open_0 == "CreationDate"@ {
                    bucket_fields(after, BucketView { creation_date: Some(text), ..acc })
                } else if rest[0]->Open_0 == "Name"@ {
                    bucket_fields(after, BucketView { name: Some(text), ..acc })
                } else {
                    None
                }
            },
            _ => None,
        }
    }
}

/// The buckets that the `Bucket` elements at the start of `rest` describe,
/// after those of `acc`, and what follows them.
pub open spec fn bucket_items(rest: Seq<XmlEvent>, acc: Seq<BucketView>) -> Option<
    (Seq<BucketView>, Seq<XmlEvent>),
>
    decreases rest.len(),
{
    if rest.len() == 0 {
        None
    } else if rest[0] is Close {
        Some((acc, rest))
    } else if rest[0] == XmlEvent::Open("Bucket"@) {
        match bucket_fields(rest.skip(1), no_bucket()) {
            Some((bucket, after)) if 0 < after.len() < rest.len() && after[0] == XmlEvent::Close(
                "Bucket"@,
            ) => bucket_items(after.skip(1), acc.push(bucket)),
            _ => None,
        }
    } else {
        None
    }
}

/// The output that the elements at the start of `rest` describe, on top of
/// `acc`, and what follows them: `Buckets` around the buckets and `Owner`
/// around the owner, in any order, up to the next end tag.
pub open spec fn output_fields(rest: Seq<XmlEvent>, acc: ListBucketsOutputView) -> Option<
    (ListBucketsOutputView, Seq<XmlEvent>),
>
    decreases rest.len(),
{
    if rest.len() == 0 {
        None
    } else if rest[0] is Close {
        Some((acc, rest))
    } else if rest[0] == XmlEvent::Open("Buckets"@) {
        match bucket_items(rest.skip(1), Seq::empty()) {
            Some((buckets, after)) if 0 < after.len() < rest.len() && after[0] == XmlEvent::Close(
                "Buckets"@,
            ) => output_fields(
                after.skip(1),
                ListBucketsOutputView { buckets: Some(buckets), ..acc },
            ),
            _ => None,
        }
    } else if rest[0] == XmlEvent::Open("Owner"@) {
        match owner_fields(rest.skip(1), no_owner()) {
            Some((owner, after)) if 0 < after.len() < rest.len() && after[0] == XmlEvent::Close(
                "Owner"@,
            ) => output_fields(after.skip(1), ListBucketsOutputView { owner: Some(owner), ..acc }),
            _ => None,
        }
    } else {
        None
    }
}

/// The output that a whole document describes: the root element
/// `ListBucketsOutput` around the output's elements, and nothing after it.
pub open spec fn decoded(events: Seq<XmlEvent>) -> Option<ListBucketsOutputView> {
    if events.len() > 0 && events[0] == XmlEvent::Open("ListBucketsOutput"@) {
        match output_fields(events.skip(1), no_output()) {
            Some((out, after)) if after.len() == 1 && after[0] == XmlEvent::Close(
                "ListBucketsOutput"@,
            ) => Some(out),
            _ => None,
        }
    } else {
        None
    }
}

/// The output that a body text describes.
pub open spec fn parsed(text: Seq<char>) -> Option<ListBucketsOutputView> {
    match scan(text) {
        Some(events) => decoded(events),
        None => None,
    }
}

fn read_bucket_fields(reader: &mut Reader) -> (r: Option<Bucket>)
    requires
        old(reader).wf(),
    ensures
        final(reader).wf(),
        final(reader).all() == old(reader).all(),
        final(reader).position() >= old(reader).position(),
        match bucket_fields(old(reader).rest(), no_bucket()) {
            Some((bucket, after)) => r is Some && r->0@ == bucket && final(reader).rest() == after,
            None => r is None,
        },
{
    let mut acc = Bucket { creation_date: None, name: None };
    loop
        invariant
            reader.wf(),
            reader.all() == old(reader).all(),
            reader.position() >= old(reader).position(),
            bucket_fields(old(reader).rest(), no_bucket()) == bucket_fields(reader.rest(), acc@),
        decreases reader.all().len() - reader.position(),
    {
        if reader.at_end() {
            return None;
        }
        if reader.at_close() {
            return Some(acc);
        }
        let name = match reader.peek_open() {
            Some(name) => name,
            None => {
                return None;
            },
        };
        let text = match reader.read_leaf() {
            Some(text) => text,
            None => {
                return None;
            },
        };
        if str_eq(name, "CreationDate") {
            acc.creation_date = Some(text);
        } else if str_eq(name, "Name") {
            acc.name = Some(text);
        } else {
            return None;
        }
    }
}

fn read_bucket_items(reader: &mut Reader) -> (r: Option<Vec<Bucket>>)
    requires
        old(reader).wf(),
    ensures
        final(reader).wf(),
        final(reader).all() == old(reader).all(),
        final(reader).position() >= old(reader).position(),
        match bucket_items(old(reader).rest(), Seq::empty()) {
            Some((buckets, after)) => {
                &&& r is Some
                &&& bucket_views(r->0@) == buckets
                &&& final(reader).rest() == after
            },
            None => r is None,
        },
{
    let mut acc: Vec<Bucket> = Vec::new();
    assert(bucket_views(acc@) =~= Seq::<BucketView>::empty());
    loop
        invariant
            reader.wf(),
            reader.all() == old(reader).all(),
            reader.position() >= old(reader).position(),
            bucket_items(old(reader).rest(), Seq::empty()) == bucket_items(
                reader.rest(),
                bucket_views(acc@),
            ),
        decreases reader.all().len() - reader.position(),
    {
        if reader.at_end() {
            return None;
        }
        if reader.at_close() {
            return Some(acc);
        }
        match reader.peek_open() {
            Some(name) => {
                if !str_eq(name, "Bucket") {
                    return None;
                }
            },
            None => {
                return None;
            },
        }
        reader.skip_one();
        let bucket = match read_bucket_fields(reader) {
            Some(bucket) => bucket,
            None => {
                return None;
            },
        };
        if !reader.at_close_of("Bucket") {
            return None;
        }
        reader.skip_one();
        let ghost before = bucket_views(acc@);
        acc.push(bucket);
        assert(bucket_views(acc@) =~= before.push(bucket@));
    }
}

fn read_output_fields(reader: &mut Reader) -> (r: Option<ListBucketsOutput>)
    requires
        old(reader).wf(),
    ensures
        final(reader).wf(),
        final(reader).all() == old(reader).all(),
        final(reader).position() >= old(reader).position(),
        match output_fields(old(reader).rest(), no_output()) {
            Some((out, after)) => r is Some && r->0@ == out && final(reader).rest() == after,
            None => r is None,
        },
{
    let mut acc = ListBucketsOutput { buckets: None, owner: None };
    loop
        invariant
            reader.wf(),
            reader.all() == old(reader).all(),
            reader.position() >= old(reader).position(),
            output_fields(old(reader).rest(), no_output()) == output_fields(reader.rest(), acc@),
        decreases reader.all().len() - reader.position(),
    {
        if reader.at_end() {
            return None;
        }
        if reader.at_close() {
            return Some(acc);
        }
        let name = match reader.peek_open() {
            Some(name) => name,
            None => {
                return None;
            },
        };
        if str_eq(name, "Buckets") {
            reader.skip_one();
            let buckets = match read_bucket_items(reader) {
                Some(buckets) => buckets,
                None => {
                    return None;
                },
            };
            if !reader.at_close_of("Buckets") {
                return None;
            }
            reader.skip_one();
            acc.buckets = Some(buckets);
        } else if str_eq(name, "Owner") {
            reader.skip_one();
            let owner = match read_owner_fields(reader) {
                Some(owner) => owner,
                None => {
                    return None;
                },
            };
            if !reader.at_close_of("Owner") {
                return None;
            }
            reader.skip_one();
            acc.owner = Some(owner);
        } else {
            return None;
        }
    }
}

/// Reads a body text back into an output value: the value that the text
/// describes, or nothing when the text is no listing of buckets.
pub fn parse_output(text: &str) -> (r: Option<ListBucketsOutput>)
    ensures
        match r {
            Some(out) => parsed(text@) == Some(out@),
            None => parsed(text@) is None,
        },
{
    let tokens = match tokenize(text) {
        Some(tokens) => tokens,
        None => {
            return None;
        },
    };
    let mut reader = Reader::new(&tokens);
    match reader.peek_open() {
        Some(name) => {
            if !str_eq(name, "ListBucketsOutput") {
                return None;
            }
        },
        None => {
            return None;
        },
    }
    reader.skip_one();
    let out = match read_output_fields(&mut reader) {
        Some(out) => out,
        None => {
            return None;
        },
    };
    if !reader.at_close_of("ListBucketsOutput") {
        return None;
    }
    let ghost after = reader.rest();
    reader.skip_one();
    if !reader.at_end() {
        return None;
    }
    assert(after.len() == 1);
    Some(out)
}

/// Reading one optional element of a bucket sets that field and goes on
/// with what follows.
proof fn lemma_bucket_step(
    rest: Seq<XmlEvent>,
    acc: BucketView,
    is_name: bool,
    value: Option<Seq<char>>,
)
    ensures
        bucket_fields(
            optional_element_written(
                if is_name {
                    "Name"@
                } else {
                    "CreationDate"@
                },
                value,
            ) + rest,
            acc,
        ) == bucket_fields(
            rest,
            match value {
                Some(text) => if is_name {
                    BucketView { name: value, ..acc }
                } else {
                    BucketView { creation_date: value, ..acc }
                },
                None => acc,
            },
        ),
{
    reveal_strlit("CreationDate");
    reveal_strlit("Name");
    let name = if is_name {
        "Name"@
    } else {
        "CreationDate"@
    };
    assert(valid_name(name));
    match value {
        Some(text) => {
            lemma_leaf_text(name, text, rest);
        },
        None => {
            assert(optional_element_written(name, value) + rest =~= rest);
        },
    }
}

/// Reading what a bucket writes gives the bucket back and stops at the end
/// tag that follows.
pub proof fn lemma_bucket_fields(bucket: Bucket, rest: Seq<XmlEvent>)
    requires
        rest.len() > 0,
        rest[0] is Close,
    ensures
        bucket_fields(bucket.written() + rest, no_bucket()) == Some((bucket@, rest)),
{
    let date = optional_element_written("CreationDate"@, option_text(bucket.creation_date));
    let name = optional_element_written("Name"@, option_text(bucket.name));
    let dated = BucketView { creation_date: option_text(bucket.creation_date), ..no_bucket() };
    lemma_bucket_step(name + rest, no_bucket(), false, option_text(bucket.creation_date));
    lemma_bucket_step(rest, dated, true, option_text(bucket.name));
    assert((date + name) + rest =~= date + (name + rest));
    assert(bucket_fields(rest, bucket@) == Some((bucket@, rest)));
}

/// Reading the `Bucket` elements that a list of buckets writes gives the
/// buckets back, in order, and stops at the end tag that follows.
pub proof fn lemma_bucket_items(buckets: Seq<Bucket>, acc: Seq<BucketView>, rest: Seq<XmlEvent>)
    requires
        rest.len() > 0,
        rest[0] is Close,
    ensures
        bucket_items(sequence_written("Bucket"@, buckets) + rest, acc) == Some(
            (acc + bucket_views(buckets), rest),
        ),
    decreases buckets.len(),
{
    lemma_names();
    if buckets.len() == 0 {
        assert(sequence_written("Bucket"@, buckets) + rest =~= rest);
        assert(acc + bucket_views(buckets) =~= acc);
    } else {
        let first = buckets[0];
        let others = buckets.skip(1);
        lemma_sequence_front("Bucket"@, buckets);
        let end = seq![XmlEvent::Close("Bucket"@)];
        let tail = sequence_written("Bucket"@, others) + rest;
        let all = sequence_written("Bucket"@, buckets) + rest;
        assert(all =~= seq![XmlEvent::Open("Bucket"@)] + (first.written() + (end + tail)));
        assert(all.skip(1) =~= first.written() + (end + tail));
        lemma_bucket_fields(first, end + tail);
        assert((end + tail).skip(1) =~= tail);
        lemma_bucket_items(others, acc.push(first@), rest);
        assert(acc.push(first@) + bucket_views(others) =~= acc + bucket_views(buckets));
    }
}

/// Reading what an output writes gives the output back and stops at the end
/// tag that follows.
pub proof fn lemma_output_fields(out: ListBucketsOutput, rest: Seq<XmlEvent>)
    requires
        rest.len() > 0,
        rest[0] is Close,
    ensures
        output_fields(out.written() + rest, no_output()) == Some((out@, rest)),
{
    lemma_names();
    reveal_strlit("Buckets");
    reveal_strlit("Owner");
    let buckets = optional_nested_written("Buckets"@, out.buckets);
    let owner = optional_nested_written("Owner"@, out.owner);
    let listed = ListBucketsOutputView { buckets: out@.buckets, ..no_output() };
    assert((buckets + owner) + rest =~= buckets + (owner + rest));
    assert(output_fields(rest, out@) == Some((out@, rest)));
    assert(output_fields(owner + rest, listed) == output_fields(rest, out@)) by {
        match out.owner {
            Some(o) => {
                let end = seq![XmlEvent::Close("Owner"@)];
                let all = owner + rest;
                assert(all =~= seq![XmlEvent::Open("Owner"@)] + (o.written() + (end + rest)));
                assert(all.skip(1) =~= o.written() + (end + rest));
                lemma_owner_fields(o, false, end + rest);
                assert((end + rest).skip(1) =~= rest);
            },
            None => {
                assert(owner + rest =~= rest);
            },
        }
    }
    assert(output_fields(buckets + (owner + rest), no_output()) == output_fields(
        owner + rest,
        listed,
    )) by {
        match out.buckets {
            Some(items) => {
                let end = seq![XmlEvent::Close("Buckets"@)];
                let tail = owner + rest;
                let all = buckets + tail;
                assert(all =~= seq![XmlEvent::Open("Buckets"@)] + (sequence_written(
                    "Bucket"@,
                    items@,
                ) + (end + tail)));
                assert(all.skip(1) =~= sequence_written("Bucket"@, items@) + (end + tail));
                lemma_bucket_items(items@, Seq::empty(), end + tail);
                assert(Seq::<BucketView>::empty() + bucket_views(items@) =~= bucket_views(items@));
                assert((end + tail).skip(1) =~= tail);
            },
            None => {
                assert(buckets + (owner + rest) =~= owner + rest);
            },
        }
    }
}

/// What an output writes can be read back.
pub proof fn lemma_output_readable(out: ListBucketsOutput)
    ensures
        readable(document("ListBucketsOutput"@, out.written())),
{
    lemma_names();
    let buckets = optional_nested_written("Buckets"@, out.buckets);
    let owner = optional_nested_written("Owner"@, out.owner);
    assert(readable(Seq::<XmlEvent>::empty()));
    match out.buckets {
        Some(items) => {
            assert forall|i: int| 0 <= i < items@.len() implies readable(
                (#[trigger] items@[i]).written(),
            ) by {
                let b = items@[i];
                lemma_readable_optional("CreationDate"@, option_text(b.creation_date));
                lemma_readable_optional("Name"@, option_text(b.name));
                lemma_readable_concat(
                    optional_element_written("CreationDate"@, option_text(b.creation_date)),
                    optional_element_written("Name"@, option_text(b.name)),
                );
            }
            lemma_readable_sequence("Bucket"@, items@);
            lemma_readable_element("Buckets"@, items.written());
        },
        None => {},
    }
    match out.owner {
        Some(o) => {
            lemma_readable_optional("DisplayName"@, option_text(o.display_name));
            lemma_readable_optional("ID"@, option_text(o.id));
            lemma_readable_concat(
                optional_element_written("DisplayName"@, option_text(o.display_name)),
                optional_element_written("ID"@, option_text(o.id)),
            );
            lemma_readable_element("Owner"@, o.written());
        },
        None => {},
    }
    lemma_readable_concat(buckets, owner);
    lemma_readable_element("ListBucketsOutput"@, out.written());
}

/// Round trip: reading back the body that an output is rendered to gives
/// the output's fields again, the buckets in their order.
pub proof fn lemma_round_trip(out: ListBucketsOutput)
    ensures
        out.response() is Ok,
        out.response()->Ok_0.body is Xml,
        parsed(out.response()->Ok_0.body->Xml_0) == Some(out@),
{
    let root = "ListBucketsOutput"@;
    let events = document(root, out.written());
    let end = seq![XmlEvent::Close(root)];
    lemma_output_readable(out);
    lemma_scan_render(events);
    assert(events =~= seq![XmlEvent::Open(root)] + (out.written() + end));
    assert(events.skip(1) =~= out.written() + end);
    lemma_output_fields(out, end);
}

} // verus!
