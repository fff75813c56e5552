use s3_wire::dto::{
    Bucket, CreateBucketError, CreateBucketOutput, ListBucketsError, ListBucketsOutput,
    ListBucketsRequest,
};
use s3_wire::ops::{create_bucket, list_buckets, list_objects_v2};
use s3_wire::output::{S3Output, S3Result};
use s3_wire::query::GetQuery;
use s3_wire::request::Request;
use s3_wire::response::{Body, Response};

fn body_text(body: &Body) -> String {
    match body {
        Body::Xml(text) => text.clone(),
        _ => panic!("expected an XML body"),
    }
}

#[test]
fn create_bucket_extract_sets_only_the_bucket() {
    let req = Request::new("PUT", "/my-bucket", "");
    let input = create_bucket::extract(&req, "my-bucket").unwrap();
    assert_eq!(input.bucket, "my-bucket");
    assert_eq!(input.acl, None);
    assert_eq!(input.create_bucket_configuration, None);
    assert_eq!(input.grant_full_control, None);
    assert_eq!(input.grant_read, None);
    assert_eq!(input.grant_read_acp, None);
    assert_eq!(input.grant_write, None);
    assert_eq!(input.grant_write_acp, None);
    assert_eq!(input.object_lock_enabled_for_bucket, None);
}

#[test]
fn list_objects_v2_extract_takes_the_query() {
    let req = Request::new("GET", "/b", "list-type=2");
    let query = GetQuery {
        continuation_token: Some("tok123".to_string()),
        max_keys: Some(10),
        ..GetQuery::default()
    };
    let input = list_objects_v2::extract(&req, query, "b").unwrap();
    assert_eq!(input.bucket, "b");
    assert_eq!(input.continuation_token, Some("tok123".to_string()));
    assert_eq!(input.max_keys, Some(10));
    assert_eq!(input.request_payer, None);
}

#[test]
fn list_buckets_extract_has_no_fields() {
    assert_eq!(list_buckets::extract(), Ok(ListBucketsRequest));
}

#[test]
fn list_buckets_error_has_no_value() {
    let render: fn(ListBucketsError) -> S3Result<Response> = ListBucketsError::try_into_response;
    let none: Option<ListBucketsError> = None;
    assert!(none.map(render).is_none());
    assert_eq!(std::mem::size_of::<ListBucketsError>(), 0);
    assert_eq!(std::mem::size_of::<Option<ListBucketsError>>(), 0);
}

#[test]
fn list_buckets_output_with_one_named_bucket() {
    let out = ListBucketsOutput {
        buckets: Some(vec![Bucket { creation_date: None, name: Some("b1".to_string()) }]),
        owner: None,
    };
    let res = out.try_into_response().unwrap();
    assert_eq!(res.status(), 200);
    let text = body_text(res.body());
    assert_eq!(
        text,
        "<ListBucketsOutput><Buckets><Bucket><Name>b1</Name></Bucket></Buckets></ListBucketsOutput>"
    );
    assert!(!text.contains("<CreationDate>"));
}

#[test]
fn create_bucket_output_sets_location_only_when_present() {
    let res = CreateBucketOutput { location: Some("/my-bucket".to_string()) }
        .try_into_response()
        .unwrap();
    assert_eq!(res.headers().get("Location"), Some("/my-bucket"));
    assert_eq!(res.headers().len(), 1);
    let res = CreateBucketOutput { location: None }.try_into_response().unwrap();
    assert_eq!(res.headers().len(), 0);
    assert!(matches!(res.body(), Body::Empty));
}

#[test]
fn create_bucket_error_renders_the_error_document() {
    let res = CreateBucketError::BucketAlreadyExists("taken".to_string())
        .try_into_response()
        .unwrap();
    assert_eq!(res.status(), 409);
    assert_eq!(
        body_text(res.body()),
        "<Error><Code>BucketAlreadyExists</Code><Message>taken</Message></Error>"
    );
}
