use s3_wire::dto::{
    Bucket, CommonPrefix, ListBucketsOutput, ListObjectsV2Error, ListObjectsV2Output, Object, Owner,
};
use s3_wire::ops::{list_buckets, list_objects_v2};
use s3_wire::output::S3Output;
use s3_wire::response::{Body, Response};

fn xml(res: &Response) -> String {
    match res.body() {
        Body::Xml(text) => text.clone(),
        _ => panic!("expected an XML body"),
    }
}

fn text(s: &str) -> Option<String> {
    Some(s.to_string())
}

fn full_listing() -> ListObjectsV2Output {
    ListObjectsV2Output {
        common_prefixes: Some(vec![
            CommonPrefix { prefix: text("photos/") },
            CommonPrefix { prefix: text("docs/") },
        ]),
        contents: Some(vec![
            Object {
                e_tag: text("\"abc\""),
                key: text("b.txt"),
                last_modified: text("2020-01-02T03:04:05.000Z"),
                owner: Some(Owner { display_name: text("alice"), id: text("id-1") }),
                size: Some(42),
                storage_class: text("STANDARD"),
            },
            Object {
                e_tag: None,
                key: text("a<&>.txt"),
                last_modified: None,
                owner: None,
                size: Some(0),
                storage_class: None,
            },
        ]),
        continuation_token: text("tok1"),
        delimiter: text("/"),
        encoding_type: text("url"),
        is_truncated: Some(true),
        key_count: Some(2),
        max_keys: Some(1000),
        name: text("bucket"),
        next_continuation_token: text("tok2"),
        prefix: text(""),
        start_after: text("a"),
    }
}

#[test]
fn empty_list_buckets_output_is_the_root_alone() {
    let res = ListBucketsOutput { buckets: None, owner: None }.try_into_response().unwrap();
    assert_eq!(res.status(), 200);
    assert_eq!(res.headers().len(), 0);
    assert_eq!(xml(&res), "<ListBucketsOutput></ListBucketsOutput>");
}

#[test]
fn empty_list_objects_output_is_the_root_alone() {
    let res = ListObjectsV2Output::default().try_into_response().unwrap();
    assert_eq!(res.status(), 200);
    assert_eq!(res.headers().len(), 0);
    assert_eq!(xml(&res), "<ListBucketResult></ListBucketResult>");
}

#[test]
fn list_buckets_output_in_full() {
    let out = ListBucketsOutput {
        buckets: Some(vec![
            Bucket { creation_date: text("2019-12-11T23:32:47+00:00"), name: text("zeta") },
            Bucket { creation_date: None, name: text("alpha") },
            Bucket { creation_date: None, name: None },
        ]),
        owner: Some(Owner {
            display_name: text("Account+Name"),
            id: text("AIDACKCEVSQ6C2EXAMPLE"),
        }),
    };
    let res = out.try_into_response().unwrap();
    assert_eq!(
        xml(&res),
        "<ListBucketsOutput>\
         <Buckets>\
         <Bucket><CreationDate>2019-12-11T23:32:47+00:00</CreationDate><Name>zeta</Name></Bucket>\
         <Bucket><Name>alpha</Name></Bucket>\
         <Bucket></Bucket>\
         </Buckets>\
         <Owner><DisplayName>Account+Name</DisplayName><ID>AIDACKCEVSQ6C2EXAMPLE</ID></Owner>\
         </ListBucketsOutput>"
    );
}

#[test]
fn list_buckets_output_with_an_empty_list_keeps_the_wrapper() {
    let out = ListBucketsOutput { buckets: Some(Vec::new()), owner: None };
    let res = out.try_into_response().unwrap();
    assert_eq!(xml(&res), "<ListBucketsOutput><Buckets></Buckets></ListBucketsOutput>");
}

#[test]
fn list_objects_output_in_full() {
    let res = full_listing().try_into_response().unwrap();
    assert_eq!(res.status(), 200);
    assert_eq!(
        xml(&res),
        "<ListBucketResult>\
         <IsTruncated>true</IsTruncated>\
         <Contents>\
         <Key>b.txt</Key>\
         <LastModified>2020-01-02T03:04:05.000Z</LastModified>\
         <ETag>\"abc\"</ETag>\
         <Size>42</Size>\
         <StorageClass>STANDARD</StorageClass>\
         <Owner><ID>id-1</ID><DisplayName>alice</DisplayName></Owner>\
         </Contents>\
         <Contents><Key>a&lt;&amp;&gt;.txt</Key><Size>0</Size></Contents>\
         <Name>bucket</Name>\
         <Prefix></Prefix>\
         <Delimiter>/</Delimiter>\
         <MaxKeys>1000</MaxKeys>\
         <CommonPrefixes><Prefix>photos/</Prefix><Prefix>docs/</Prefix></CommonPrefixes>\
         <EncodingType>url</EncodingType>\
         <KeyCount>2</KeyCount>\
         <ContinuationToken>tok1</ContinuationToken>\
         <NextContinuationToken>tok2</NextContinuationToken>\
         <StartAfter>a</StartAfter>\
         </ListBucketResult>"
    );
}

#[test]
fn key_count_and_max_keys_are_written_from_their_own_fields() {
    let out = ListObjectsV2Output {
        key_count: Some(3),
        max_keys: Some(-7),
        ..ListObjectsV2Output::default()
    };
    let res = out.try_into_response().unwrap();
    assert_eq!(
        xml(&res),
        "<ListBucketResult><MaxKeys>-7</MaxKeys><KeyCount>3</KeyCount></ListBucketResult>"
    );
    let out = ListObjectsV2Output { max_keys: Some(5), ..ListObjectsV2Output::default() };
    let res = out.try_into_response().unwrap();
    assert_eq!(xml(&res), "<ListBucketResult><MaxKeys>5</MaxKeys></ListBucketResult>");
}

#[test]
fn serialization_is_deterministic() {
    let first = xml(&full_listing().try_into_response().unwrap());
    let second = xml(&full_listing().try_into_response().unwrap());
    assert_eq!(first, second);
}

#[test]
fn list_buckets_round_trip() {
    let out = ListBucketsOutput {
        buckets: Some(vec![
            Bucket { creation_date: text("2019-12-11T23:32:47+00:00"), name: text("zeta") },
            Bucket { creation_date: None, name: text("a<b>&amp;") },
            Bucket { creation_date: text(""), name: None },
            Bucket { creation_date: None, name: None },
        ]),
        owner: Some(Owner { display_name: None, id: text("id") }),
    };
    let body = xml(&out.clone().try_into_response().unwrap());
    assert_eq!(list_buckets::read::parse_output(&body), Some(out));
}

#[test]
fn list_buckets_round_trip_of_edge_values() {
    for out in [
        ListBucketsOutput { buckets: None, owner: None },
        ListBucketsOutput { buckets: Some(Vec::new()), owner: None },
        ListBucketsOutput { buckets: None, owner: Some(Owner { display_name: None, id: None }) },
    ] {
        let body = xml(&out.clone().try_into_response().unwrap());
        assert_eq!(list_buckets::read::parse_output(&body), Some(out));
    }
}

#[test]
fn list_objects_round_trip() {
    let out = full_listing();
    let body = xml(&out.clone().try_into_response().unwrap());
    assert_eq!(list_objects_v2::read::parse_output(&body), Some(out));
    let out = ListObjectsV2Output::default();
    let body = xml(&out.clone().try_into_response().unwrap());
    assert_eq!(list_objects_v2::read::parse_output(&body), Some(out));
}

#[test]
fn list_objects_round_trip_keeps_extreme_numbers() {
    let out = ListObjectsV2Output {
        contents: Some(vec![Object { size: Some(i64::MAX), ..Object::default() }]),
        key_count: Some(i64::MIN),
        max_keys: Some(0),
        is_truncated: Some(false),
        ..ListObjectsV2Output::default()
    };
    let body = xml(&out.clone().try_into_response().unwrap());
    assert_eq!(list_objects_v2::read::parse_output(&body), Some(out));
}

#[test]
fn an_empty_list_of_objects_reads_back_as_absent() {
    let out = ListObjectsV2Output { contents: Some(Vec::new()), ..ListObjectsV2Output::default() };
    let body = xml(&out.try_into_response().unwrap());
    assert_eq!(body, "<ListBucketResult></ListBucketResult>");
    assert_eq!(list_objects_v2::read::parse_output(&body), Some(ListObjectsV2Output::default()));
}

#[test]
fn a_common_prefix_without_its_prefix_is_not_written() {
    let out = ListObjectsV2Output {
        common_prefixes: Some(vec![
            CommonPrefix { prefix: None },
            CommonPrefix { prefix: text("p/") },
        ]),
        ..ListObjectsV2Output::default()
    };
    let body = xml(&out.try_into_response().unwrap());
    assert_eq!(
        body,
        "<ListBucketResult><CommonPrefixes><Prefix>p/</Prefix></CommonPrefixes></ListBucketResult>"
    );
    let read = list_objects_v2::read::parse_output(&body).unwrap();
    assert_eq!(read.common_prefixes, Some(vec![CommonPrefix { prefix: text("p/") }]));
}

#[test]
fn reading_takes_elements_in_any_order() {
    let read = list_objects_v2::read::parse_output(
        "<ListBucketResult><KeyCount>1</KeyCount><Contents><Size>5</Size><Key>k</Key></Contents>\
         <Name>b</Name><Contents><Owner><DisplayName>d</DisplayName><ID>i</ID></Owner></Contents>\
         </ListBucketResult>",
    )
    .unwrap();
    assert_eq!(read.key_count, Some(1));
    assert_eq!(read.name, text("b"));
    let objects = read.contents.unwrap();
    assert_eq!(objects.len(), 2);
    assert_eq!(objects[0].key, text("k"));
    assert_eq!(objects[0].size, Some(5));
    assert_eq!(objects[1].owner, Some(Owner { display_name: text("d"), id: text("i") }));
}

#[test]
fn reading_refuses_what_is_no_listing() {
    for body in [
        "",
        "<ListBucketResult>",
        "<ListBucketResult></ListBucketsOutput>",
        "<ListBucketResult></ListBucketResult><ListBucketResult></ListBucketResult>",
        "<ListBucketResult><Unknown>1</Unknown></ListBucketResult>",
        "<ListBucketResult><MaxKeys>ten</MaxKeys></ListBucketResult>",
        "<ListBucketResult><MaxKeys></MaxKeys></ListBucketResult>",
        "<ListBucketResult><IsTruncated>yes</IsTruncated></ListBucketResult>",
        "<ListBucketResult><Name>a</Prefix></ListBucketResult>",
        "<ListBucketResult><Name>a&b</Name></ListBucketResult>",
        "<ListBucketResult><Name>a&quot;</Name></ListBucketResult>",
        "<ListBucketResult><Name><Name>a</Name></Name></ListBucketResult>",
        "<ListBucketResult>text</ListBucketResult>",
        "<ListBucketResult><Contents><Size>1.5</Size></Contents></ListBucketResult>",
        "<ListBucketResult><CommonPrefixes><Key>a</Key></CommonPrefixes></ListBucketResult>",
        "<ListBucketResult attr=\"1\"></ListBucketResult>",
        "<ListBucketResult><Name>a</Name>",
        "text",
        "<>",
    ] {
        assert_eq!(list_objects_v2::read::parse_output(body), None, "{}", body);
    }
    for body in [
        "",
        "<ListBucketResult></ListBucketResult>",
        "<ListBucketsOutput><Buckets><Owner></Owner></Buckets></ListBucketsOutput>",
        "<ListBucketsOutput><Bucket></Bucket></ListBucketsOutput>",
        "<ListBucketsOutput><Owner><Name>n</Name></Owner></ListBucketsOutput>",
        "<ListBucketsOutput><Buckets><Bucket><ID>1</ID></Bucket></Buckets></ListBucketsOutput>",
        "<ListBucketsOutput></ListBucketsOutput> ",
    ] {
        assert_eq!(list_buckets::read::parse_output(body), None, "{}", body);
    }
}

#[test]
fn list_objects_error_renders_the_error_document() {
    let res = ListObjectsV2Error::NoSuchBucket("no bucket <b>".to_string())
        .try_into_response()
        .unwrap();
    assert_eq!(res.status(), 404);
    assert_eq!(res.headers().len(), 0);
    assert_eq!(
        xml(&res),
        "<Error><Code>NoSuchBucket</Code><Message>no bucket &lt;b&gt;</Message></Error>"
    );
    assert_eq!(
        ListObjectsV2Error::NoSuchBucket(String::new()).code(),
        s3_wire::error_code::S3ErrorCode::NoSuchBucket
    );
}
