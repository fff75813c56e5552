//! The typed request, output and error values of each operation.

use vstd::prelude::*;
use crate::xml::option_text;

verus! {

/// The configuration sent along when a bucket is created.
#[derive(Clone, Debug, Default, PartialEq, Eq)]
pub struct CreateBucketConfiguration {
    pub location_constraint: Option<String>,
}

/// The request of the operation that creates a bucket.
#[derive(Clone, Debug, Default, PartialEq, Eq)]
pub struct CreateBucketRequest {
    pub acl: Option<String>,
    pub bucket: String,
    pub create_bucket_configuration: Option<CreateBucketConfiguration>,
    pub grant_full_control: Option<String>,
    pub grant_read: Option<String>,
    pub grant_read_acp: Option<String>,
    pub grant_write: Option<String>,
    pub grant_write_acp: Option<String>,
    pub object_lock_enabled_for_bucket: Option<bool>,
}

/// The output of the operation that creates a bucket.
#[derive(Clone, Debug, Default, PartialEq, Eq)]
pub struct CreateBucketOutput {
    pub location: Option<String>,
}

/// The errors of the operation that creates a bucket, each with the message
/// to show.
#[derive(Clone, Debug, PartialEq, Eq)]
pub enum CreateBucketError {
    BucketAlreadyExists(String),
    BucketAlreadyOwnedByYou(String),
}

/// The request of the operation that lists all buckets. It has no fields.
#[derive(Clone, Copy, Debug, Default, PartialEq, Eq)]
pub struct ListBucketsRequest;

/// A bucket in a listing.
#[derive(Clone, Debug, Default, PartialEq, Eq)]
pub struct Bucket {
    pub creation_date: Option<String>,
    pub name: Option<String>,
}

/// The owner of a bucket or of an object.
#[derive(Clone, Debug, Default, PartialEq, Eq)]
pub struct Owner {
    pub display_name: Option<String>,
    pub id: Option<String>,
}

/// The output of the operation that lists all buckets.
#[derive(Clone, Debug, Default, PartialEq, Eq)]
pub struct ListBucketsOutput {
    pub buckets: Option<Vec<Bucket>>,
    pub owner: Option<Owner>,
}

/// The errors of the operation that lists all buckets: there are none, so
/// the type has no value.
#[derive(Clone, Copy, Debug, PartialEq, Eq)]
pub struct ListBucketsError {
    never: core::convert::Infallible,
}

impl ListBucketsError {
    #[verifier::type_invariant]
    pub open spec fn impossible(self) -> bool {
        false
    }
}

/// The request of the operation that lists the objects of a bucket.
#[derive(Clone, Debug, Default, PartialEq, Eq)]
pub struct ListObjectsV2Request {
    pub bucket: String,
    pub continuation_token: Option<String>,
    pub delimiter: Option<String>,
    pub encoding_type: Option<String>,
    pub fetch_owner: Option<bool>,
    pub max_keys: Option<i64>,
    pub prefix: Option<String>,
    pub request_payer: Option<String>,
    pub start_after: Option<String>,
}

/// A group of keys that share a prefix up to the delimiter.
#[derive(Clone, Debug, Default, PartialEq, Eq)]
pub struct CommonPrefix {
    pub prefix: Option<String>,
}

/// An object in a listing.
#[derive(Clone, Debug, Default, PartialEq, Eq)]
pub struct Object {
    pub e_tag: Option<String>,
    pub key: Option<String>,
    pub last_modified: Option<String>,
    pub owner: Option<Owner>,
    pub size: Option<i64>,
    pub storage_class: Option<String>,
}

/// The output of the operation that lists the objects of a bucket.
#[derive(Clone, Debug, Default, PartialEq, Eq)]
pub struct ListObjectsV2Output {
    pub common_prefixes: Option<Vec<CommonPrefix>>,
    pub contents: Option<Vec<Object>>,
    pub continuation_token: Option<String>,
    pub delimiter: Option<String>,
    pub encoding_type: Option<String>,
    pub is_truncated: Option<bool>,
    pub key_count: Option<i64>,
    pub max_keys: Option<i64>,
    pub name: Option<String>,
    pub next_continuation_token: Option<String>,
    pub prefix: Option<String>,
    pub start_after: Option<String>,
}

/// The errors of the operation that lists the objects of a bucket, each with
/// the message to show.
#[derive(Clone, Debug, PartialEq, Eq)]
pub enum ListObjectsV2Error {
    NoSuchBucket(String),
}

/// A bucket of a listing as plain values.
pub struct BucketView {
    pub creation_date: Option<Seq<char>>,
    pub name: Option<Seq<char>>,
}

impl View for Bucket {
    type V = BucketView;

    open spec fn view(&self) -> BucketView {
        BucketView {
            creation_date: option_text(self.creation_date),
            name: option_text(self.name),
        }
    }
}

/// An owner as plain values.
pub struct OwnerView {
    pub display_name: Option<Seq<char>>,
    pub id: Option<Seq<char>>,
}

impl View for Owner {
    type V = OwnerView;

    open spec fn view(&self) -> OwnerView {
        OwnerView { display_name: option_text(self.display_name), id: option_text(self.id) }
    }
}

/// An optional owner as plain values.
pub open spec fn owner_view(owner: Option<Owner>) -> Option<OwnerView> {
    match owner {
        Some(o) => Some(o@),
        None => None,
    }
}

/// The buckets of a listing as plain values, in order.
pub open spec fn bucket_views(buckets: Seq<Bucket>) -> Seq<BucketView> {
    buckets.map_values(|b: Bucket| b@)
}

/// The output of the operation that lists all buckets, as plain values.
pub struct ListBucketsOutputView {
    pub buckets: Option<Seq<BucketView>>,
    pub owner: Option<OwnerView>,
}

impl View for ListBucketsOutput {
    type V = ListBucketsOutputView;

    open spec fn view(&self) -> ListBucketsOutputView {
        ListBucketsOutputView {
            buckets: match self.buckets {
                Some(buckets) => Some(bucket_views(buckets@)),
                None => None,
            },
            owner: owner_view(self.owner),
        }
    }
}

/// An object of a listing as plain values.
pub struct ObjectView {
    pub e_tag: Option<Seq<char>>,
    pub key: Option<Seq<char>>,
    pub last_modified: Option<Seq<char>>,
    pub owner: Option<OwnerView>,
    pub size: Option<i64>,
    pub storage_class: Option<Seq<char>>,
}

impl View for Object {
    type V = ObjectView;

    open spec fn view(&self) -> ObjectView {
        ObjectView {
            e_tag: option_text(self.e_tag),
            key: option_text(self.key),
            last_modified: option_text(self.last_modified),
            owner: owner_view(self.owner),
            size: self.size,
            storage_class: option_text(self.storage_class),
        }
    }
}

/// The objects of a listing as plain values, in order.
pub open spec fn object_views(objects: Seq<Object>) -> Seq<ObjectView> {
    objects.map_values(|o: Object| o@)
}

/// The common prefixes of a listing as plain values, in order.
pub open spec fn prefix_views(prefixes: Seq<CommonPrefix>) -> Seq<Option<Seq<char>>> {
    prefixes.map_values(|p: CommonPrefix| option_text(p.prefix))
}

/// The output of the operation that lists the objects of a bucket, as plain
/// values.
pub struct ListObjectsV2OutputView {
    pub common_prefixes: Option<Seq<Option<Seq<char>>>>,
    pub contents: Option<Seq<ObjectView>>,
    pub continuation_token: Option<Seq<char>>,
    pub delimiter: Option<Seq<char>>,
    pub encoding_type: Option<Seq<char>>,
    pub is_truncated: Option<bool>,
    pub key_count: Option<i64>,
    pub max_keys: Option<i64>,
    pub name: Option<Seq<char>>,
    pub next_continuation_token: Option<Seq<char>>,
    pub prefix: Option<Seq<char>>,
    pub start_after: Option<Seq<char>>,
}

impl View for ListObjectsV2Output {
    type V = ListObjectsV2OutputView;

    open spec fn view(&self) -> ListObjectsV2OutputView {
        ListObjectsV2OutputView {
            common_prefixes: match self.common_prefixes {
                Some(prefixes) => Some(prefix_views(prefixes@)),
                None => None,
            },
            contents: match self.contents {
                Some(objects) => Some(object_views(objects@)),
                None => None,
            },
            continuation_token: option_text(self.continuation_token),
            delimiter: option_text(self.delimiter),
            encoding_type: option_text(self.encoding_type),
            is_truncated: self.is_truncated,
            key_count: self.key_count,
            max_keys: self.max_keys,
            name: option_text(self.name),
            next_continuation_token: option_text(self.next_continuation_token),
            prefix: option_text(self.prefix),
            start_after: option_text(self.start_after),
        }
    }
}

} // verus!
