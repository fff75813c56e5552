//! Reading a listing of objects back from its body text.

use vstd::prelude::*;
use vstd::string::*;
use crate::dto::{
    object_views, owner_view, prefix_views, CommonPrefix, ListObjectsV2Output,
    ListObjectsV2OutputView, Object, ObjectView, Owner,
};
use crate::ops::list_objects_v2::{
    contents_written, head_written, lemma_head_names, lemma_object_names_are_valid,
    lemma_tail_names, object_owner_written, prefixes_written, tail_written, ObjectOwner,
};
use crate::ops::owner::{lemma_owner_fields, no_owner, owner_fields, read_owner_fields};
use crate::output::S3Output;
use crate::response::document;
use crate::text::{
    bool_text, int_text, lemma_bool_round_trip, lemma_int_round_trip, option_bool_text,
    option_int_text, parse_bool, parse_int, parsed_bool, parsed_int, str_eq,
};
use crate::xml::{
    leaf, lemma_extend, option_text, optional_element_written, optional_nested_written,
    sequence_written, valid_name, XmlBody, XmlEvent,
};
use crate::xml_read::{
    leaf_text, lemma_leaf_text, lemma_readable_concat, lemma_readable_element,
    lemma_readable_optional, lemma_readable_sequence, lemma_scan_render, lemma_sequence_front,
    readable, scan, tokenize, Reader,
};

verus! {

/// An object with no field present.
pub open spec fn no_object() -> ObjectView {
    ObjectView {
        e_tag: None,
        key: None,
        last_modified: None,
        owner: None,
        size: None,
        storage_class: None,
    }
}

/// An output with no field present.
pub open spec fn no_output() -> ListObjectsV2OutputView {
    ListObjectsV2OutputView {
        common_prefixes: None,
        contents: None,
        continuation_token: None,
        delimiter: None,
        encoding_type: None,
        is_truncated: None,
        key_count: None,
        max_keys: None,
        name: None,
        next_continuation_token: None,
        prefix: None,
        start_after: None,
    }
}

/// The object `acc` with the field that the leaf element `name` stands for
/// set to what `text` denotes; none when the object has no such field or the
/// text does not denote a value of the field's type.
pub open spec fn set_object_leaf(acc: ObjectView, name: Seq<char>, text: Seq<char>) -> Option<
    ObjectView,
> {
    if name == "Key"@ {
        Some(ObjectView { key: Some(text), ..acc })
    } else if name == "LastModified"@ {
        Some(ObjectView { last_modified: Some(text), ..acc })
    } else if name == "ETag"@ {
        Some(ObjectView { e_tag: Some(text), ..acc })
    } else if name == "Size"@ {
        match parsed_int(text) {
            Some(n) => Some(ObjectView { size: Some(n), ..acc }),
            None => None,
        }
    } else if name == "StorageClass"@ {
        Some(ObjectView { storage_class: Some(text), ..acc })
    } else {
        None
    }
}

/// The object that the elements at the start of `rest` describe, on top of
/// `acc`, and what follows them: the leaf elements of an object and `Owner`
/// around the owner, in any order, up to the next end tag.
pub open spec fn object_fields(rest: Seq<XmlEvent>, acc: ObjectView) -> Option<
    (ObjectView, Seq<XmlEvent>),
>
    decreases rest.len(),
{
    if rest.len() == 0 {
        None
    } else if rest[0] is Close {
        Some((acc, rest))
    } else if rest[0] == XmlEvent::Open("Owner"@) {
        match owner_fields(rest.skip(1), no_owner()) {
            Some((owner, after)) if 0 < after.len() < rest.len() && after[0] == XmlEvent::Close(
                "Owner"@,
            ) => object_fields(after.skip(1), ObjectView { owner: Some(owner), ..acc }),
            _ => None,
        }
    } else {
        match leaf_text(rest) {
            Some((text, after)) if after.len() < rest.len() => match set_object_leaf(
                acc,
                rest[0]->Open_0,
                text,
            ) {
                Some(next) => object_fields(after, next),
                None => None,
            },
            _ => None,
        }
    }
}

/// The prefixes that the `Prefix` elements at the start of `rest` hold,
/// after those of `acc`, and what follows them.
pub open spec fn prefix_items(rest: Seq<XmlEvent>, acc: Seq<Option<Seq<char>>>) -> Option<
    (Seq<Option<Seq<char>>>, Seq<XmlEvent>),
>
    decreases rest.len(),
{
    if rest.len() == 0 {
        None
    } else if rest[0] is Close {
        Some((acc, rest))
    } else if rest[0] == XmlEvent::Open("Prefix"@) {
        match leaf_text(rest) {
            Some((text, after)) if after.len() < rest.len() => prefix_items(
                after,
                acc.push(Some(text)),
            ),
            _ => None,
        }
    } else {
        None
    }
}

/// The output `acc` with the field that the leaf element `name` stands for
/// set to what `text` denotes; none when the output has no such field or the
/// text does not denote a value of the field's type.
pub open spec fn set_output_leaf(
    acc: ListObjectsV2OutputView,
    name: Seq<char>,
    text: Seq<char>,
) -> Option<ListObjectsV2OutputView> {
    if name == "IsTruncated"@ {
        match parsed_bool(text) {
            Some(b) => Some(ListObjectsV2OutputView { is_truncated: Some(b), ..acc }),
            None => None,
        }
    } else if name == "Name"@ {
        Some(ListObjectsV2OutputView { name: Some(text), ..acc })
    } else if name == "Prefix"@ {
        Some(ListObjectsV2OutputView { prefix: Some(text), ..acc })
    } else if name == "Delimiter"@ {
        Some(ListObjectsV2OutputView { delimiter: Some(text), ..acc })
    } else if name == "MaxKeys"@ {
        match parsed_int(text) {
            Some(n) => Some(ListObjectsV2OutputView { max_keys: Some(n), ..acc }),
            None => None,
        }
    } else if name == "EncodingType"@ {
        Some(ListObjectsV2OutputView { encoding_type: Some(text), ..acc })
    } else if name == "KeyCount"@ {
        match parsed_int(text) {
            Some(n) => Some(ListObjectsV2OutputView { key_count: Some(n), ..acc }),
            None => None,
        }
    } else if name == "ContinuationToken"@ {
        Some(ListObjectsV2OutputView { continuation_token: Some(text), ..acc })
    } else if name == "NextContinuationToken"@ {
        Some(ListObjectsV2OutputView { next_continuation_token: Some(text), ..acc })
    } else if name == "StartAfter"@ {
        Some(ListObjectsV2OutputView { start_after: Some(text), ..acc })
    } else {
        None
    }
}

/// The objects of `acc` with one more at the end.
pub open spec fn with_object(
    acc: ListObjectsV2OutputView,
    object: ObjectView,
) -> ListObjectsV2OutputView {
    ListObjectsV2OutputView {
        contents: Some(
            match acc.contents {
                Some(objects) => objects.push(object),
                None => seq![object],
            },
        ),
        ..acc
    }
}

/// The output that the elements at the start of `rest` describe, on top of
/// `acc`, and what follows them: the leaf elements of a listing, one
/// `Contents` element per object and `CommonPrefixes` around the prefixes,
/// in any order, up to the next end tag. Objects keep the order of their
/// elements.
pub open spec fn output_fields(rest: Seq<XmlEvent>, acc: ListObjectsV2OutputView) -> Option<
    (ListObjectsV2OutputView, Seq<XmlEvent>),
>
    decreases rest.len(),
{
    if rest.len() == 0 {
        None
    } else if rest[0] is Close {
        Some((acc, rest))
    } else if rest[0] == XmlEvent::Open("Contents"@) {
        match object_fields(rest.skip(1), no_object()) {
            Some((object, after)) if 0 < after.len() < rest.len() && after[0] == XmlEvent::Close(
                "Contents"@,
            ) => output_fields(after.skip(1), with_object(acc, object)),
            _ => None,
        }
    } else if rest[0] == XmlEvent::Open("CommonPrefixes"@) {
        match prefix_items(rest.skip(1), Seq::empty()) {
            Some((prefixes, after)) if 0 < after.len() < rest.len() && after[0] == XmlEvent::Close(
                "CommonPrefixes"@,
            ) => output_fields(
                after.skip(1),
                ListObjectsV2OutputView { common_prefixes: Some(prefixes), ..acc },
            ),
            _ => None,
        }
    } else {
        match leaf_text(rest) {
            Some((text, after)) if after.len() < rest.len() => match set_output_leaf(
                acc,
                rest[0]->Open_0,
                text,
            ) {
                Some(next) => output_fields(after, next),
                None => None,
            },
            _ => None,
        }
    }
}

/// The output that a whole document describes: the root element
/// `ListBucketResult` around the output's elements, and nothing after it.
pub open spec fn decoded(events: Seq<XmlEvent>) -> Option<ListObjectsV2OutputView> {
    if events.len() > 0 && events[0] == XmlEvent::Open("ListBucketResult"@) {
        match output_fields(events.skip(1), no_output()) {
            Some((out, after)) if after.len() == 1 && after[0] == XmlEvent::Close(
                "ListBucketResult"@,
            ) => Some(out),
            _ => None,
        }
    } else {
        None
    }
}

/// The output that a body text describes.
pub open spec fn parsed(text: Seq<char>) -> Option<ListObjectsV2OutputView> {
    match scan(text) {
        Some(events) => decoded(events),
        None => None,
    }
}

fn assign_object_leaf(acc: &mut Object, name: &str, text: String) -> (ok: bool)
    ensures
        match set_object_leaf(old(acc)@, name@, text@) {
            Some(next) => ok && final(acc)@ == next,
            None => !ok,
        },
{
    if str_eq(name, "Key") {
        acc.key = Some(text);
        true
    } else if str_eq(name, "LastModified") {
        acc.last_modified = Some(text);
        true
    } else if str_eq(name, "ETag") {
        acc.e_tag = Some(text);
        true
    } else if str_eq(name, "Size") {
        match parse_int(text.as_str()) {
            Some(n) => {
                acc.size = Some(n);
                true
            },
            None => false,
        }
    } else if str_eq(name, "StorageClass") {
        acc.storage_class = Some(text);
        true
    } else {
        false
    }
}

fn read_object_fields(reader: &mut Reader) -> (r: Option<Object>)
    requires
        old(reader).wf(),
    ensures
        final(reader).wf(),
        final(reader).all() == old(reader).all(),
        final(reader).position() >= old(reader).position(),
        match object_fields(old(reader).rest(), no_object()) {
            Some((object, after)) => r is Some && r->0@ == object && final(reader).rest() == after,
            None => r is None,
        },
{
    let mut acc = Object {
        e_tag: None,
        key: None,
        last_modified: None,
        owner: None,
        size: None,
        storage_class: None,
    };
    loop
        invariant
            reader.wf(),
            reader.all() == old(reader).all(),
            reader.position() >= old(reader).position(),
            object_fields(old(reader).rest(), no_object()) == object_fields(reader.rest(), acc@),
        decreases reader.all().len() - reader.position(),
    {
        if reader.at_end() {
            return None;
        }
        if reader.at_close() {
            return Some(acc);
        }
        let name = match reader.peek_open() {
            Some(name) => name,
            None => {
                return None;
            },
        };
        if str_eq(name, "Owner") {
            reader.skip_one();
            let owner = match read_owner_fields(reader) {
                Some(owner) => owner,
                None => {
                    return None;
                },
            };
            if !reader.at_close_of("Owner") {
                return None;
            }
            reader.skip_one();
            acc.owner = Some(owner);
        } else {
            let text = match reader.read_leaf() {
                Some(text) => text,
                None => {
                    return None;
                },
            };
            if !assign_object_leaf(&mut acc, name, text) {
                return None;
            }
        }
    }
}

fn read_prefix_items(reader: &mut Reader) -> (r: Option<Vec<CommonPrefix>>)
    requires
        old(reader).wf(),
    ensures
        final(reader).wf(),
        final(reader).all() == old(reader).all(),
        final(reader).position() >= old(reader).position(),
        match prefix_items(old(reader).rest(), Seq::empty()) {
            Some((prefixes, after)) => {
                &&& r is Some
                &&& prefix_views(r->0@) == prefixes
                &&& final(reader).rest() == after
            },
            None => r is None,
        },
{
    let mut acc: Vec<CommonPrefix> = Vec::new();
    assert(prefix_views(acc@) =~= Seq::<Option<Seq<char>>>::empty());
    loop
        invariant
            reader.wf(),
            reader.all() == old(reader).all(),
            reader.position() >= old(reader).position(),
            prefix_items(old(reader).rest(), Seq::empty()) == prefix_items(
                reader.rest(),
                prefix_views(acc@),
            ),
        decreases reader.all().len() - reader.position(),
    {
        if reader.at_end() {
            return None;
        }
        if reader.at_close() {
            return Some(acc);
        }
        match reader.peek_open() {
            Some(name) => {
                if !str_eq(name, "Prefix") {
                    return None;
                }
            },
            None => {
                return None;
            },
        }
        let text = match reader.read_leaf() {
            Some(text) => text,
            None => {
                return None;
            },
        };
        let ghost before = prefix_views(acc@);
        acc.push(CommonPrefix { prefix: Some(text) });
        assert(prefix_views(acc@) =~= before.push(Some(text@)));
    }
}

fn assign_output_leaf(acc: &mut ListObjectsV2Output, name: &str, text: String) -> (ok: bool)
    ensures
        match set_output_leaf(old(acc)@, name@, text@) {
            Some(next) => ok && final(acc)@ == next,
            None => !ok,
        },
{
    if str_eq(name, "IsTruncated") {
        match parse_bool(text.as_str()) {
            Some(b) => {
                acc.is_truncated = Some(b);
                true
            },
            None => false,
        }
    } else if str_eq(name, "Name") {
        acc.name = Some(text);
        true
    } else if str_eq(name, "Prefix") {
        acc.prefix = Some(text);
        true
    } else if str_eq(name, "Delimiter") {
        acc.delimiter = Some(text);
        true
    } else if str_eq(name, "MaxKeys") {
        match parse_int(text.as_str()) {
            Some(n) => {
                acc.max_keys = Some(n);
                true
            },
            None => false,
        }
    } else if str_eq(name, "EncodingType") {
        acc.encoding_type = Some(text);
        true
    } else if str_eq(name, "KeyCount") {
        match parse_int(text.as_str()) {
            Some(n) => {
                acc.key_count = Some(n);
                true
            },
            None => false,
        }
    } else if str_eq(name, "ContinuationToken") {
        acc.continuation_token = Some(text);
        true
    } else if str_eq(name, "NextContinuationToken") {
        acc.next_continuation_token = Some(text);
        true
    } else if str_eq(name, "StartAfter") {
        acc.start_after = Some(text);
        true
    } else {
        false
    }
}

fn push_object(acc: &mut ListObjectsV2Output, object: Object)
    ensures
        final(acc)@ == with_object(old(acc)@, object@),
{
    let ghost before = acc@;
    let mut objects = match acc.contents.take() {
        Some(objects) => objects,
        None => Vec::new(),
    };
    let ghost held = object_views(objects@);
    objects.push(object);
    assert(object_views(objects@) =~= held.push(object@));
    assert(before.contents is None ==> held.push(object@) =~= seq![object@]);
    acc.contents = Some(objects);
}

fn read_output_fields(reader: &mut Reader) -> (r: Option<ListObjectsV2Output>)
    requires
        old(reader).wf(),
    ensures
        final(reader).wf(),
        final(reader).all() == old(reader).all(),
        final(reader).position() >= old(reader).position(),
        match output_fields(old(reader).rest(), no_output()) {
            Some((out, after)) => r is Some && r->0@ == out && final(reader).rest() == after,
            None => r is None,
        },
{
    let mut acc = ListObjectsV2Output {
        common_prefixes: None,
        contents: None,
        continuation_token: None,
        delimiter: None,
        encoding_type: None,
        is_truncated: None,
        key_count: None,
        max_keys: None,
        name: None,
        next_continuation_token: None,
        prefix: None,
        start_after: None,
    };
    loop
        invariant
            reader.wf(),
            reader.all() == old(reader).all(),
            reader.position() >= old(reader).position(),
            output_fields(old(reader).rest(), no_output()) == output_fields(reader.rest(), acc@),
        decreases reader.all().len() - reader.position(),
    {
        if reader.at_end() {
            return None;
        }
        if reader.at_close() {
            return Some(acc);
        }
        let name = match reader.peek_open() {
            Some(name) => name,
            None => {
                return None;
            },
        };
        if str_eq(name, "Contents") {
            reader.skip_one();
            let object = match read_object_fields(reader) {
                Some(object) => object,
                None => {
                    return None;
                },
            };
            if !reader.at_close_of("Contents") {
                return None;
            }
            reader.skip_one();
            push_object(&mut acc, object);
        } else if str_eq(name, "CommonPrefixes") {
            reader.skip_one();
            let prefixes = match read_prefix_items(reader) {
                Some(prefixes) => prefixes,
                None => {
                    return None;
                },
            };
            if !reader.at_close_of("CommonPrefixes") {
                return None;
            }
            reader.skip_one();
            acc.common_prefixes = Some(prefixes);
        } else {
            let text = match reader.read_leaf() {
                Some(text) => text,
                None => {
                    return None;
                },
            };
            if !assign_output_leaf(&mut acc, name, text) {
                return None;
            }
        }
    }
}

/// Reads a body text back into an output value: the value that the text
/// describes, or nothing when the text is no listing of objects.
pub fn parse_output(text: &str) -> (r: Option<ListObjectsV2Output>)
    ensures
        match r {
            Some(out) => parsed(text@) == Some(out@),
            None => parsed(text@) is None,
        },
{
    let tokens = match tokenize(text) {
        Some(tokens) => tokens,
        None => {
            return None;
        },
    };
    let mut reader = Reader::new(&tokens);
    match reader.peek_open() {
        Some(name) => {
            if !str_eq(name, "ListBucketResult") {
                return None;
            }
        },
        None => {
            return None;
        },
    }
    reader.skip_one();
    let out = match read_output_fields(&mut reader) {
        Some(out) => out,
        None => {
            return None;
        },
    };
    if !reader.at_close_of("ListBucketResult") {
        return None;
    }
    let ghost after = reader.rest();
    reader.skip_one();
    if !reader.at_end() {
        return None;
    }
    assert(after.len() == 1);
    Some(out)
}

/// The name of the `k`-th leaf element of an object.
pub open spec fn object_leaf_name(k: int) -> Seq<char> {
    if k == 0 {
        "Key"@
    } else if k == 1 {
        "LastModified"@
    } else if k == 2 {
        "ETag"@
    } else if k == 3 {
        "Size"@
    } else {
        "StorageClass"@
    }
}

/// The object `acc` with its `k`-th leaf field set to `text`, or to `size`
/// for the size.
pub open spec fn object_with(
    acc: ObjectView,
    k: int,
    text: Option<Seq<char>>,
    size: Option<i64>,
) -> ObjectView {
    if k == 0 {
        ObjectView { key: text, ..acc }
    } else if k == 1 {
        ObjectView { last_modified: text, ..acc }
    } else if k == 2 {
        ObjectView { e_tag: text, ..acc }
    } else if k == 3 {
        ObjectView { size: size, ..acc }
    } else {
        ObjectView { storage_class: text, ..acc }
    }
}

/// Each leaf element of an object sets its own field, and none of them is
/// named like the owner's element.
proof fn lemma_object_names(acc: ObjectView, text: Seq<char>, n: i64)
    ensures
        set_object_leaf(acc, "Key"@, text) == Some(ObjectView { key: Some(text), ..acc }),
        set_object_leaf(acc, "LastModified"@, text) == Some(
            ObjectView { last_modified: Some(text), ..acc },
        ),
        set_object_leaf(acc, "ETag"@, text) == Some(ObjectView { e_tag: Some(text), ..acc }),
        set_object_leaf(acc, "Size"@, int_text(n as int)) == Some(
            ObjectView { size: Some(n), ..acc },
        ),
        set_object_leaf(acc, "StorageClass"@, text) == Some(
            ObjectView { storage_class: Some(text), ..acc },
        ),
        "Key"@ != "Owner"@,
        "LastModified"@ != "Owner"@,
        "ETag"@ != "Owner"@,
        "Size"@ != "Owner"@,
        "StorageClass"@ != "Owner"@,
{
    reveal_strlit("Key");
    reveal_strlit("LastModified");
    reveal_strlit("ETag");
    reveal_strlit("Size");
    reveal_strlit("StorageClass");
    reveal_strlit("Owner");
    assert("Key"@.len() == 3);
    assert("LastModified"@.len() == 12 && "LastModified"@[0] == 'L');
    assert("ETag"@.len() == 4 && "ETag"@[0] == 'E');
    assert("Size"@.len() == 4 && "Size"@[0] == 'S');
    assert("StorageClass"@.len() == 12 && "StorageClass"@[0] == 'S');
    assert("Owner"@.len() == 5);
    lemma_int_round_trip(n);
}

/// Reading the `k`-th optional leaf element of an object sets that field
/// and goes on with what follows.
proof fn lemma_object_step(
    rest: Seq<XmlEvent>,
    acc: ObjectView,
    k: int,
    text: Option<Seq<char>>,
    size: Option<i64>,
)
    requires
        0 <= k < 5,
        k == 3 ==> text == option_int_text(size),
        object_with(acc, k, None, None) == acc,
    ensures
        object_fields(optional_element_written(object_leaf_name(k), text) + rest, acc)
            == object_fields(rest, object_with(acc, k, text, size)),
{
    lemma_object_names_are_valid();
    let name = object_leaf_name(k);
    match text {
        Some(t) => {
            let n: i64 = match size {
                Some(n) => n,
                None => 0,
            };
            lemma_object_names(acc, t, n);
            lemma_leaf_text(name, t, rest);
        },
        None => {
            assert(optional_element_written(name, text) + rest =~= rest);
        },
    }
}

/// Reading the owner of an object, where it has one, sets the owner and
/// goes on with what follows.
proof fn lemma_object_owner_step(rest: Seq<XmlEvent>, acc: ObjectView, owner: Option<Owner>)
    requires
        acc.owner is None,
    ensures
        object_fields(object_owner_written(owner) + rest, acc) == object_fields(
            rest,
            ObjectView { owner: owner_view(owner), ..acc },
        ),
{
    lemma_object_names_are_valid();
    let all = object_owner_written(owner) + rest;
    match owner {
        Some(o) => {
            let end = seq![XmlEvent::Close("Owner"@)];
            assert(all =~= seq![XmlEvent::Open("Owner"@)] + (ObjectOwner(&o).written() + (end
                + rest)));
            assert(all.skip(1) =~= ObjectOwner(&o).written() + (end + rest));
            lemma_owner_fields(o, true, end + rest);
            assert((end + rest).skip(1) =~= rest);
        },
        None => {
            assert(all =~= rest);
        },
    }
}

/// Reading what an object writes gives the object back and stops at the end
/// tag that follows.
pub proof fn lemma_object_fields(object: Object, rest: Seq<XmlEvent>)
    requires
        rest.len() > 0,
        rest[0] is Close,
    ensures
        object_fields(object.written() + rest, no_object()) == Some((object@, rest)),
{
    let v = object@;
    let e1 = optional_element_written(object_leaf_name(0), v.key);
    let e2 = optional_element_written(object_leaf_name(1), v.last_modified);
    let e3 = optional_element_written(object_leaf_name(2), v.e_tag);
    let e4 = optional_element_written(object_leaf_name(3), option_int_text(v.size));
    let e5 = optional_element_written(object_leaf_name(4), v.storage_class);
    let e6 = object_owner_written(object.owner);
    let a0 = no_object();
    let a1 = object_with(a0, 0, v.key, None);
    let a2 = object_with(a1, 1, v.last_modified, None);
    let a3 = object_with(a2, 2, v.e_tag, None);
    let a4 = object_with(a3, 3, option_int_text(v.size), v.size);
    let a5 = object_with(a4, 4, v.storage_class, None);
    let t5 = e6 + rest;
    let t4 = e5 + t5;
    let t3 = e4 + t4;
    let t2 = e3 + t3;
    let t1 = e2 + t2;
    lemma_object_step(t1, a0, 0, v.key, None);
    lemma_object_step(t2, a1, 1, v.last_modified, None);
    lemma_object_step(t3, a2, 2, v.e_tag, None);
    lemma_object_step(t4, a3, 3, option_int_text(v.size), v.size);
    lemma_object_step(t5, a4, 4, v.storage_class, None);
    lemma_object_owner_step(rest, a5, object.owner);
    assert(ObjectView { owner: v.owner, ..a5 } == v);
    assert(object_fields(rest, v) == Some((v, rest)));
    lemma_extend(e1 + e2 + e3 + e4 + e5, e6, rest);
    lemma_extend(e1 + e2 + e3 + e4, e5, t5);
    lemma_extend(e1 + e2 + e3, e4, t4);
    lemma_extend(e1 + e2, e3, t3);
    lemma_extend(e1, e2, t2);
}

/// The name of the `k`-th leaf element of a listing.
pub open spec fn output_leaf_name(k: int) -> Seq<char> {
    if k == 0 {
        "IsTruncated"@
    } else if k == 1 {
        "Name"@
    } else if k == 2 {
        "Prefix"@
    } else if k == 3 {
        "Delimiter"@
    } else if k == 4 {
        "MaxKeys"@
    } else if k == 5 {
        "EncodingType"@
    } else if k == 6 {
        "KeyCount"@
    } else if k == 7 {
        "ContinuationToken"@
    } else if k == 8 {
        "NextContinuationToken"@
    } else {
        "StartAfter"@
    }
}

/// The output `acc` with its `k`-th leaf field set: to `text`, or to
/// `number` or `flag` for the fields that hold a number or a boolean.
pub open spec fn output_with(
    acc: ListObjectsV2OutputView,
    k: int,
    text: Option<Seq<char>>,
    number: Option<i64>,
    flag: Option<bool>,
) -> ListObjectsV2OutputView {
    if k == 0 {
        ListObjectsV2OutputView { is_truncated: flag, ..acc }
    } else if k == 1 {
        ListObjectsV2OutputView { name: text, ..acc }
    } else if k == 2 {
        ListObjectsV2OutputView { prefix: text, ..acc }
    } else if k == 3 {
        ListObjectsV2OutputView { delimiter: text, ..acc }
    } else if k == 4 {
        ListObjectsV2OutputView { max_keys: number, ..acc }
    } else if k == 5 {
        ListObjectsV2OutputView { encoding_type: text, ..acc }
    } else if k == 6 {
        ListObjectsV2OutputView { key_count: number, ..acc }
    } else if k == 7 {
        ListObjectsV2OutputView { continuation_token: text, ..acc }
    } else if k == 8 {
        ListObjectsV2OutputView { next_continuation_token: text, ..acc }
    } else {
        ListObjectsV2OutputView { start_after: text, ..acc }
    }
}

/// The names of a listing's elements differ from one another.
proof fn lemma_output_names_differ()
    ensures
        forall|j: int, k: int|
            0 <= j < k < 10 ==> #[trigger] output_leaf_name(j) != #[trigger] output_leaf_name(k),
        forall|k: int|
            0 <= k < 10 ==> #[trigger] output_leaf_name(k) != "Contents"@ && output_leaf_name(k)
                != "CommonPrefixes"@,
{
    reveal_strlit("IsTruncated");
    reveal_strlit("Name");
    reveal_strlit("Prefix");
    reveal_strlit("Delimiter");
    reveal_strlit("MaxKeys");
    reveal_strlit("EncodingType");
    reveal_strlit("KeyCount");
    reveal_strlit("ContinuationToken");
    reveal_strlit("NextContinuationToken");
    reveal_strlit("StartAfter");
    reveal_strlit("Contents");
    reveal_strlit("CommonPrefixes");
    assert("IsTruncated"@.len() == 11);
    assert("Name"@.len() == 4);
    assert("Prefix"@.len() == 6);
    assert("Delimiter"@.len() == 9);
    assert("MaxKeys"@.len() == 7);
    assert("EncodingType"@.len() == 12);
    assert("KeyCount"@.len() == 8 && "KeyCount"@[0] == 'K');
    assert("ContinuationToken"@.len() == 17);
    assert("NextContinuationToken"@.len() == 21);
    assert("StartAfter"@.len() == 10);
    assert("Contents"@.len() == 8 && "Contents"@[0] == 'C');
    assert("CommonPrefixes"@.len() == 14);
}

/// The `k`-th leaf element of a listing sets the `k`-th field.
proof fn lemma_output_leaf(
    acc: ListObjectsV2OutputView,
    k: int,
    text: Seq<char>,
    number: i64,
    flag: bool,
)
    requires
        0 <= k < 10,
        k == 0 ==> text == bool_text(flag),
        k == 4 || k == 6 ==> text == int_text(number as int),
    ensures
        set_output_leaf(acc, output_leaf_name(k), text) == Some(
            output_with(acc, k, Some(text), Some(number), Some(flag)),
        ),
{
    lemma_output_names_differ();
    lemma_int_round_trip(number);
    lemma_bool_round_trip(flag);
    let name = output_leaf_name(k);
    assert(forall|j: int| 0 <= j < k ==> output_leaf_name(j) != name);
    assert(k > 0 ==> name != output_leaf_name(0));
    assert(k > 1 ==> name != output_leaf_name(1));
    assert(k > 2 ==> name != output_leaf_name(2));
    assert(k > 3 ==> name != output_leaf_name(3));
    assert(k > 4 ==> name != output_leaf_name(4));
    assert(k > 5 ==> name != output_leaf_name(5));
    assert(k > 6 ==> name != output_leaf_name(6));
    assert(k > 7 ==> name != output_leaf_name(7));
    assert(k > 8 ==> name != output_leaf_name(8));
}

/// The names of a listing's leaf elements are valid.
proof fn lemma_output_names_valid(k: int)
    requires
        0 <= k < 10,
    ensures
        valid_name(output_leaf_name(k)),
{
    lemma_head_names();
    lemma_tail_names();
}

/// Reading the `k`-th optional leaf element of a listing sets that field
/// and goes on with what follows.
proof fn lemma_output_step(
    rest: Seq<XmlEvent>,
    acc: ListObjectsV2OutputView,
    k: int,
    text: Option<Seq<char>>,
    number: Option<i64>,
    flag: Option<bool>,
)
    requires
        0 <= k < 10,
        k == 0 ==> text == option_bool_text(flag),
        k == 4 || k == 6 ==> text == option_int_text(number),
        output_with(acc, k, None, None, None) == acc,
    ensures
        output_fields(optional_element_written(output_leaf_name(k), text) + rest, acc)
            == output_fields(rest, output_with(acc, k, text, number, flag)),
{
    lemma_output_names_valid(k);
    lemma_output_names_differ();
    let name = output_leaf_name(k);
    match text {
        Some(t) => {
            let n: i64 = match number {
                Some(n) => n,
                None => 0,
            };
            let b: bool = match flag {
                Some(b) => b,
                None => false,
            };
            lemma_output_leaf(acc, k, t, n, b);
            lemma_leaf_text(name, t, rest);
            assert(output_with(acc, k, Some(t), Some(n), Some(b)) == output_with(
                acc,
                k,
                text,
                number,
                flag,
            ));
        },
        None => {
            assert(optional_element_written(name, text) + rest =~= rest);
        },
    }
}

/// The output `acc` with more objects at the end of its list; unchanged
/// when there are none to add.
pub open spec fn with_objects(
    acc: ListObjectsV2OutputView,
    objects: Seq<ObjectView>,
) -> ListObjectsV2OutputView {
    if objects.len() == 0 {
        acc
    } else {
        ListObjectsV2OutputView {
            contents: Some(
                match acc.contents {
                    Some(held) => held + objects,
                    None => objects,
                },
            ),
            ..acc
        }
    }
}

/// Reading the `Contents` elements that a list of objects writes adds the
/// objects, in order, and goes on with what follows.
proof fn lemma_contents_step(
    objects: Seq<Object>,
    acc: ListObjectsV2OutputView,
    rest: Seq<XmlEvent>,
)
    ensures
        output_fields(sequence_written("Contents"@, objects) + rest, acc) == output_fields(
            rest,
            with_objects(acc, object_views(objects)),
        ),
    decreases objects.len(),
{
    lemma_head_names();
    if objects.len() == 0 {
        assert(sequence_written("Contents"@, objects) + rest =~= rest);
    } else {
        let first = objects[0];
        let others = objects.skip(1);
        lemma_sequence_front("Contents"@, objects);
        let end = seq![XmlEvent::Close("Contents"@)];
        let tail = sequence_written("Contents"@, others) + rest;
        let all = sequence_written("Contents"@, objects) + rest;
        assert(all =~= seq![XmlEvent::Open("Contents"@)] + (first.written() + (end + tail)));
        assert(all.skip(1) =~= first.written() + (end + tail));
        lemma_object_fields(first, end + tail);
        assert((end + tail).skip(1) =~= tail);
        let next = with_object(acc, first@);
        lemma_contents_step(others, next, rest);
        assert(object_views(objects) =~= seq![first@] + object_views(others));
        assert(with_objects(next, object_views(others)).contents->0 =~= with_objects(
            acc,
            object_views(objects),
        ).contents->0);
    }
}

/// The prefixes work from the front as they do from the back.
proof fn lemma_prefixes_front(items: Seq<CommonPrefix>)
    requires
        items.len() > 0,
    ensures
        prefixes_written(items) == optional_element_written(
            "Prefix"@,
            option_text(items[0].prefix),
        ) + prefixes_written(items.skip(1)),
    decreases items.len(),
{
    let first = optional_element_written("Prefix"@, option_text(items[0].prefix));
    if items.len() == 1 {
        assert(items.drop_last() =~= Seq::<CommonPrefix>::empty());
        assert(items.skip(1) =~= Seq::<CommonPrefix>::empty());
        assert(prefixes_written(items) =~= first + prefixes_written(items.skip(1)));
    } else {
        lemma_prefixes_front(items.drop_last());
        assert(items.drop_last().skip(1) =~= items.skip(1).drop_last());
        assert(items.drop_last()[0] == items[0]);
        assert(items.skip(1).last() == items.last());
        assert(prefixes_written(items) =~= first + prefixes_written(items.skip(1)));
    }
}

/// Reading the `Prefix` elements that a list of prefixes writes gives the
/// prefixes back, in order, when each item has a prefix.
proof fn lemma_prefix_items(
    items: Seq<CommonPrefix>,
    acc: Seq<Option<Seq<char>>>,
    rest: Seq<XmlEvent>,
)
    requires
        rest.len() > 0,
        rest[0] is Close,
        forall|i: int| 0 <= i < items.len() ==> (#[trigger] items[i]).prefix is Some,
    ensures
        prefix_items(prefixes_written(items) + rest, acc) == Some(
            (acc + prefix_views(items), rest),
        ),
    decreases items.len(),
{
    lemma_head_names();
    if items.len() == 0 {
        assert(prefixes_written(items) + rest =~= rest);
        assert(acc + prefix_views(items) =~= acc);
    } else {
        let first = items[0];
        let others = items.skip(1);
        let text = first.prefix->0@;
        lemma_prefixes_front(items);
        let tail = prefixes_written(others) + rest;
        let all = prefixes_written(items) + rest;
        assert(all =~= leaf("Prefix"@, text) + tail);
        lemma_leaf_text("Prefix"@, text, tail);
        assert forall|i: int| 0 <= i < others.len() implies (#[trigger] others[i]).prefix
            is Some by {
            assert(others[i] == items[i + 1]);
        }
        lemma_prefix_items(others, acc.push(Some(text)), rest);
        assert(acc.push(Some(text)) + prefix_views(others) =~= acc + prefix_views(items));
    }
}

/// Reading the `CommonPrefixes` element, where the listing has one, sets
/// the prefixes and goes on with what follows.
proof fn lemma_prefixes_step(
    prefixes: Option<Vec<CommonPrefix>>,
    acc: ListObjectsV2OutputView,
    rest: Seq<XmlEvent>,
)
    requires
        acc.common_prefixes is None,
        prefixes is Some ==> forall|i: int|
            0 <= i < prefixes->0@.len() ==> (#[trigger] prefixes->0@[i]).prefix is Some,
    ensures
        output_fields(optional_nested_written("CommonPrefixes"@, prefixes) + rest, acc)
            == output_fields(
            rest,
            ListObjectsV2OutputView {
                common_prefixes: match prefixes {
                    Some(items) => Some(prefix_views(items@)),
                    None => None,
                },
                ..acc
            },
        ),
{
    lemma_tail_names();
    let all = optional_nested_written("CommonPrefixes"@, prefixes) + rest;
    match prefixes {
        Some(items) => {
            let end = seq![XmlEvent::Close("CommonPrefixes"@)];
            assert(all =~= seq![XmlEvent::Open("CommonPrefixes"@)] + (prefixes_written(items@)
                + (end + rest)));
            assert(all.skip(1) =~= prefixes_written(items@) + (end + rest));
            lemma_prefix_items(items@, Seq::empty(), end + rest);
            assert(Seq::<Option<Seq<char>>>::empty() + prefix_views(items@) =~= prefix_views(
                items@,
            ));
            assert((end + rest).skip(1) =~= rest);
            reveal_strlit("CommonPrefixes");
            reveal_strlit("Contents");
            assert("CommonPrefixes"@.len() == 14);
            assert("Contents"@.len() == 8);
        },
        None => {
            assert(all =~= rest);
        },
    }
}

/// Whether reading back what the output writes can give every field again:
/// a list of objects, where present, is not empty, and every common prefix
/// has its prefix. An empty list of objects writes nothing, as an absent one
/// does, and a common prefix without its prefix writes nothing either.
pub open spec fn reads_back(out: &ListObjectsV2Output) -> bool {
    &&& out.contents is Some ==> out.contents->0@.len() > 0
    &&& out.common_prefixes is Some ==> forall|i: int|
        0 <= i < out.common_prefixes->0@.len() ==> (#[trigger] out.common_prefixes->0@[i]).prefix
            is Some
}

/// The fields that the first part of a listing holds, the others absent.
pub open spec fn head_view(v: ListObjectsV2OutputView) -> ListObjectsV2OutputView {
    ListObjectsV2OutputView {
        is_truncated: v.is_truncated,
        contents: v.contents,
        name: v.name,
        prefix: v.prefix,
        delimiter: v.delimiter,
        max_keys: v.max_keys,
        ..no_output()
    }
}

/// Reading the first part of what an output writes sets the fields of that
/// part and goes on with what follows.
proof fn lemma_head_fields(out: ListObjectsV2Output, rest: Seq<XmlEvent>)
    requires
        reads_back(&out),
    ensures
        output_fields(head_written(&out) + rest, no_output()) == output_fields(
            rest,
            head_view(out@),
        ),
{
    let v = out@;
    let e1 = optional_element_written(output_leaf_name(0), option_bool_text(v.is_truncated));
    let e2 = contents_written(out.contents);
    let e3 = optional_element_written(output_leaf_name(1), v.name);
    let e4 = optional_element_written(output_leaf_name(2), v.prefix);
    let e5 = optional_element_written(output_leaf_name(3), v.delimiter);
    let e6 = optional_element_written(output_leaf_name(4), option_int_text(v.max_keys));
    let a0 = no_output();
    let a1 = output_with(a0, 0, option_bool_text(v.is_truncated), None, v.is_truncated);
    let a2 = ListObjectsV2OutputView { contents: v.contents, ..a1 };
    let a3 = output_with(a2, 1, v.name, None, None);
    let a4 = output_with(a3, 2, v.prefix, None, None);
    let a5 = output_with(a4, 3, v.delimiter, None, None);
    let a6 = output_with(a5, 4, option_int_text(v.max_keys), v.max_keys, None);
    let t6 = rest;
    let t5 = e6 + t6;
    let t4 = e5 + t5;
    let t3 = e4 + t4;
    let t2 = e3 + t3;
    let t1 = e2 + t2;
    lemma_output_step(t1, a0, 0, option_bool_text(v.is_truncated), None, v.is_truncated);
    assert(output_fields(t1, a1) == output_fields(t2, a2)) by {
        match out.contents {
            Some(objects) => {
                lemma_contents_step(objects@, a1, t2);
                assert(with_objects(a1, object_views(objects@)) == a2);
            },
            None => {
                assert(t1 =~= t2);
            },
        }
    }
    lemma_output_step(t3, a2, 1, v.name, None, None);
    lemma_output_step(t4, a3, 2, v.prefix, None, None);
    lemma_output_step(t5, a4, 3, v.delimiter, None, None);
    lemma_output_step(t6, a5, 4, option_int_text(v.max_keys), v.max_keys, None);
    assert(a6 == head_view(v));
    lemma_extend(e1 + e2 + e3 + e4 + e5, e6, t6);
    lemma_extend(e1 + e2 + e3 + e4, e5, t5);
    lemma_extend(e1 + e2 + e3, e4, t4);
    lemma_extend(e1 + e2, e3, t3);
    lemma_extend(e1, e2, t2);
}

/// Reading the second part of what an output writes sets the fields of that
/// part and goes on with what follows.
proof fn lemma_tail_fields(out: ListObjectsV2Output, rest: Seq<XmlEvent>)
    requires
        reads_back(&out),
    ensures
        output_fields(tail_written(&out) + rest, head_view(out@)) == output_fields(rest, out@),
{
    let v = out@;
    let e1 = optional_nested_written("CommonPrefixes"@, out.common_prefixes);
    let e2 = optional_element_written(output_leaf_name(5), v.encoding_type);
    let e3 = optional_element_written(output_leaf_name(6), option_int_text(v.key_count));
    let e4 = optional_element_written(output_leaf_name(7), v.continuation_token);
    let e5 = optional_element_written(output_leaf_name(8), v.next_continuation_token);
    let e6 = optional_element_written(output_leaf_name(9), v.start_after);
    let a0 = head_view(v);
    let a1 = ListObjectsV2OutputView { common_prefixes: v.common_prefixes, ..a0 };
    let a2 = output_with(a1, 5, v.encoding_type, None, None);
    let a3 = output_with(a2, 6, option_int_text(v.key_count), v.key_count, None);
    let a4 = output_with(a3, 7, v.continuation_token, None, None);
    let a5 = output_with(a4, 8, v.next_continuation_token, None, None);
    let a6 = output_with(a5, 9, v.start_after, None, None);
    let t6 = rest;
    let t5 = e6 + t6;
    let t4 = e5 + t5;
    let t3 = e4 + t4;
    let t2 = e3 + t3;
    let t1 = e2 + t2;
    lemma_prefixes_step(out.common_prefixes, a0, t1);
    lemma_output_step(t2, a1, 5, v.encoding_type, None, None);
    lemma_output_step(t3, a2, 6, option_int_text(v.key_count), v.key_count, None);
    lemma_output_step(t4, a3, 7, v.continuation_token, None, None);
    lemma_output_step(t5, a4, 8, v.next_continuation_token, None, None);
    lemma_output_step(t6, a5, 9, v.start_after, None, None);
    assert(a6 == v);
    lemma_extend(e1 + e2 + e3 + e4 + e5, e6, t6);
    lemma_extend(e1 + e2 + e3 + e4, e5, t5);
    lemma_extend(e1 + e2 + e3, e4, t4);
    lemma_extend(e1 + e2, e3, t3);
    lemma_extend(e1, e2, t2);
}

/// What an object writes can be read back.
proof fn lemma_object_readable(object: Object)
    ensures
        readable(object.written()),
{
    lemma_object_names_are_valid();
    let v = object@;
    let e1 = optional_element_written("Key"@, v.key);
    let e2 = optional_element_written("LastModified"@, v.last_modified);
    let e3 = optional_element_written("ETag"@, v.e_tag);
    let e4 = optional_element_written("Size"@, option_int_text(v.size));
    let e5 = optional_element_written("StorageClass"@, v.storage_class);
    let e6 = object_owner_written(object.owner);
    lemma_readable_optional("Key"@, v.key);
    lemma_readable_optional("LastModified"@, v.last_modified);
    lemma_readable_optional("ETag"@, v.e_tag);
    lemma_readable_optional("Size"@, option_int_text(v.size));
    lemma_readable_optional("StorageClass"@, v.storage_class);
    assert(readable(e6)) by {
        match object.owner {
            Some(o) => {
                lemma_readable_optional("ID"@, option_text(o.id));
                lemma_readable_optional("DisplayName"@, option_text(o.display_name));
                lemma_readable_concat(
                    optional_element_written("ID"@, option_text(o.id)),
                    optional_element_written("DisplayName"@, option_text(o.display_name)),
                );
                lemma_readable_element("Owner"@, ObjectOwner(&o).written());
            },
            None => {},
        }
    }
    lemma_readable_concat(e1, e2);
    lemma_readable_concat(e1 + e2, e3);
    lemma_readable_concat(e1 + e2 + e3, e4);
    lemma_readable_concat(e1 + e2 + e3 + e4, e5);
    lemma_readable_concat(e1 + e2 + e3 + e4 + e5, e6);
}

/// What a list of common prefixes writes can be read back.
proof fn lemma_prefixes_readable(items: Seq<CommonPrefix>)
    ensures
        readable(prefixes_written(items)),
    decreases items.len(),
{
    lemma_head_names();
    if items.len() > 0 {
        lemma_prefixes_readable(items.drop_last());
        lemma_readable_optional("Prefix"@, option_text(items.last().prefix));
        lemma_readable_concat(
            prefixes_written(items.drop_last()),
            optional_element_written("Prefix"@, option_text(items.last().prefix)),
        );
    }
}

/// What an output writes can be read back.
pub proof fn lemma_output_readable(out: ListObjectsV2Output)
    ensures
        readable(document("ListBucketResult"@, out.written())),
{
    lemma_head_names();
    lemma_tail_names();
    let v = out@;
    let f1 = optional_element_written("IsTruncated"@, option_bool_text(v.is_truncated));
    let f2 = contents_written(out.contents);
    let f3 = optional_element_written("Name"@, v.name);
    let f4 = optional_element_written("Prefix"@, v.prefix);
    let f5 = optional_element_written("Delimiter"@, v.delimiter);
    let f6 = optional_element_written("MaxKeys"@, option_int_text(v.max_keys));
    let e1 = optional_nested_written("CommonPrefixes"@, out.common_prefixes);
    let e2 = optional_element_written("EncodingType"@, v.encoding_type);
    let e3 = optional_element_written("KeyCount"@, option_int_text(v.key_count));
    let e4 = optional_element_written("ContinuationToken"@, v.continuation_token);
    let e5 = optional_element_written("NextContinuationToken"@, v.next_continuation_token);
    let e6 = optional_element_written("StartAfter"@, v.start_after);
    lemma_readable_optional("IsTruncated"@, option_bool_text(v.is_truncated));
    lemma_readable_optional("Name"@, v.name);
    lemma_readable_optional("Prefix"@, v.prefix);
    lemma_readable_optional("Delimiter"@, v.delimiter);
    lemma_readable_optional("MaxKeys"@, option_int_text(v.max_keys));
    lemma_readable_optional("EncodingType"@, v.encoding_type);
    lemma_readable_optional("KeyCount"@, option_int_text(v.key_count));
    lemma_readable_optional("ContinuationToken"@, v.continuation_token);
    lemma_readable_optional("NextContinuationToken"@, v.next_continuation_token);
    lemma_readable_optional("StartAfter"@, v.start_after);
    assert(readable(f2)) by {
        match out.contents {
            Some(objects) => {
                assert forall|i: int| 0 <= i < objects@.len() implies readable(
                    (#[trigger] objects@[i]).written(),
                ) by {
                    lemma_object_readable(objects@[i]);
                }
                lemma_readable_sequence("Contents"@, objects@);
            },
            None => {},
        }
    }
    assert(readable(e1)) by {
        match out.common_prefixes {
            Some(items) => {
                lemma_prefixes_readable(items@);
                lemma_readable_element("CommonPrefixes"@, items.written());
            },
            None => {},
        }
    }
    lemma_readable_concat(f1, f2);
    lemma_readable_concat(f1 + f2, f3);
    lemma_readable_concat(f1 + f2 + f3, f4);
    lemma_readable_concat(f1 + f2 + f3 + f4, f5);
    lemma_readable_concat(f1 + f2 + f3 + f4 + f5, f6);
    lemma_readable_concat(e1, e2);
    lemma_readable_concat(e1 + e2, e3);
    lemma_readable_concat(e1 + e2 + e3, e4);
    lemma_readable_concat(e1 + e2 + e3 + e4, e5);
    lemma_readable_concat(e1 + e2 + e3 + e4 + e5, e6);
    lemma_readable_concat(head_written(&out), tail_written(&out));
    lemma_readable_element("ListBucketResult"@, out.written());
}

/// Round trip: reading back the body that an output is rendered to gives
/// the output's fields again, objects and prefixes in their order.
pub proof fn lemma_round_trip(out: ListObjectsV2Output)
    requires
        reads_back(&out),
    ensures
        out.response() is Ok,
        out.response()->Ok_0.body is Xml,
        parsed(out.response()->Ok_0.body->Xml_0) == Some(out@),
{
    let root = "ListBucketResult"@;
    let events = document(root, out.written());
    let end = seq![XmlEvent::Close(root)];
    lemma_output_readable(out);
    lemma_scan_render(events);
    assert(events =~= seq![XmlEvent::Open(root)] + (out.written() + end));
    assert(events.skip(1) =~= out.written() + end);
    lemma_tail_fields(out, end);
    lemma_head_fields(out, tail_written(&out) + end);
    lemma_extend(head_written(&out), tail_written(&out), end);
    assert(output_fields(end, out@) == Some((out@, end)));
}

} // verus!
