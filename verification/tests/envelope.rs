use s3_wire::dto::{CreateBucketError, CreateBucketOutput};
use s3_wire::error::XmlErrorResponse;
use s3_wire::error_code::S3ErrorCode;
use s3_wire::headers::names::{LOCATION, X_AMZ_REQUEST_PAYER};
use s3_wire::headers::Headers;
use s3_wire::ops::{create_bucket, list_objects_v2};
use s3_wire::output::{S3Error, S3Output, S3Result};
use s3_wire::query::GetQuery;
use s3_wire::request::{is_visible_text, ExtractErrorKind, Request};
use s3_wire::response::{Body, Response, ResponseView};
use s3_wire::xml::{XmlBody, XmlError, XmlEvent, XmlWriter};
use s3_wire::xml_read::{tokenize, Token};

fn xml(res: &Response) -> String {
    match res.body() {
        Body::Xml(text) => text.clone(),
        _ => panic!("expected an XML body"),
    }
}

struct BadChild;

impl XmlBody for BadChild {
    fn written(&self) -> vstd::seq::Seq<XmlEvent> {
        unreachable!()
    }

    fn outcome(&self) -> Result<(), XmlError> {
        unreachable!()
    }

    fn write_to(&self, w: &mut XmlWriter) -> Result<(), XmlError> {
        w.optional_element("Fine", &Some("1".to_string()))?;
        w.optional_element("", &Some("2".to_string()))
    }
}

struct BadDocument;

impl S3Output for BadDocument {
    fn response(&self) -> Result<ResponseView, S3Error> {
        unreachable!()
    }

    fn try_into_response(self) -> S3Result<Response> {
        let mut res = Response::new();
        match res.set_xml_body(16, "Document", &BadChild) {
            Ok(()) => Ok(res),
            Err(e) => Err(S3Error::Body(e)),
        }
    }
}

#[test]
fn a_body_that_cannot_be_written_fails_the_response() {
    assert!(matches!(
        BadDocument.try_into_response(),
        Err(S3Error::Body(XmlError::InvalidName))
    ));
}

#[test]
fn headers_ignore_the_case_of_names() {
    let mut h = Headers::new();
    assert_eq!(h.len(), 0);
    assert_eq!(h.get("Location"), None);
    h.set("Location", "/a".to_string());
    assert_eq!(h.get("location"), Some("/a"));
    assert_eq!(h.get("LOCATION"), Some("/a"));
    assert_eq!(h.get("Locatio"), None);
    h.set("x-amz-id", "7".to_string());
    assert_eq!(h.len(), 2);
    h.set("LOCATION", "/b".to_string());
    assert_eq!(h.len(), 2);
    assert_eq!(h.get("Location"), Some("/b"));
    assert_eq!(h.get("X-Amz-Id"), Some("7"));
}

#[test]
fn header_names_as_registered() {
    assert_eq!(LOCATION, "location");
    assert_eq!(X_AMZ_REQUEST_PAYER, "x-amz-request-payer");
}

#[test]
fn response_starts_empty_with_status_200() {
    let res = Response::new();
    assert_eq!(res.status(), 200);
    assert_eq!(res.headers().len(), 0);
    assert!(matches!(res.body(), Body::Empty));
}

#[test]
fn set_if_present_writes_only_a_present_value() {
    let mut res = Response::new();
    res.set_if_present("etag", None);
    assert_eq!(res.headers().len(), 0);
    res.set_if_present("ETag", Some("\"1\"".to_string()));
    assert_eq!(res.headers().get("etag"), Some("\"1\""));
    res.set_if_present("etag", None);
    assert_eq!(res.headers().get("etag"), Some("\"1\""));
    res.set_if_present("ETAG", Some("\"2\"".to_string()));
    assert_eq!(res.headers().len(), 1);
    assert_eq!(res.headers().get("etag"), Some("\"2\""));
    res.set_status(204);
    assert_eq!(res.status(), 204);
    assert_eq!(res.headers().len(), 1);
}

#[test]
fn a_failed_body_is_not_attached() {
    let mut res = Response::new();
    res.set_if_present("x", Some("y".to_string()));
    assert_eq!(res.set_xml_body(16, "Root", &BadChild), Err(XmlError::InvalidName));
    assert!(matches!(res.body(), Body::Empty));
    assert_eq!(res.status(), 200);
    assert_eq!(res.headers().get("x"), Some("y"));
    assert_eq!(res.set_xml_body(16, "no root", &BadChild), Err(XmlError::InvalidName));
    assert!(matches!(res.body(), Body::Empty));
}

#[test]
fn required_header_is_missing_or_found() {
    let mut req = Request::new("GET", "/b", "");
    let e = req.get_required("x-amz-date").unwrap_err();
    assert_eq!(e.kind, ExtractErrorKind::Missing);
    assert_eq!(e.field, "x-amz-date");
    assert_eq!(req.get_optional("x-amz-date"), None);
    req.headers.set("X-Amz-Date", "today".to_string());
    assert_eq!(req.get_required("x-amz-date"), Ok("today"));
    assert_eq!(req.get_optional("x-amz-date"), Some("today"));
}

#[test]
fn typed_headers_are_absent_read_or_malformed() {
    let mut req = Request::new("GET", "/b", "");
    assert_eq!(req.get_optional_int("max"), Ok(None));
    assert_eq!(req.get_optional_bool("flag"), Ok(None));
    assert_eq!(req.get_optional_text("note"), Ok(None));
    req.headers.set("max", "10".to_string());
    req.headers.set("flag", "true".to_string());
    req.headers.set("note", "plain text\t~".to_string());
    assert_eq!(req.get_optional_int("Max"), Ok(Some(10)));
    assert_eq!(req.get_optional_bool("Flag"), Ok(Some(true)));
    assert_eq!(req.get_optional_text("Note"), Ok(Some("plain text\t~".to_string())));
    req.headers.set("max", "ten".to_string());
    req.headers.set("flag", "1".to_string());
    req.headers.set("note", "line\nbreak".to_string());
    let e = req.get_optional_int("max").unwrap_err();
    assert_eq!(e.kind, ExtractErrorKind::Malformed);
    assert_eq!(e.field, "max");
    assert_eq!(req.get_optional_bool("flag").unwrap_err().kind, ExtractErrorKind::Malformed);
    assert_eq!(req.get_optional_text("note").unwrap_err().kind, ExtractErrorKind::Malformed);
    req.headers.set("max", "".to_string());
    assert_eq!(req.get_optional_int("max").unwrap_err().kind, ExtractErrorKind::Malformed);
}

#[test]
fn visible_text() {
    assert!(is_visible_text(""));
    assert!(is_visible_text("requester"));
    assert!(is_visible_text(" ~\t"));
    assert!(!is_visible_text("a\u{7f}"));
    assert!(!is_visible_text("a\r\nb"));
    assert!(!is_visible_text("caf\u{e9}"));
    assert!(!is_visible_text("\u{0}"));
}

#[test]
fn assigning_from_an_optional_header() {
    let mut req = Request::new("GET", "/b", "");
    let mut field = Some("kept".to_string());
    assert!(req.assign_from_optional_header("x-note", &mut field).is_ok());
    assert_eq!(field, Some("kept".to_string()));
    req.headers.set("X-Note", "new".to_string());
    assert!(req.assign_from_optional_header("x-note", &mut field).is_ok());
    assert_eq!(field, Some("new".to_string()));
    req.headers.set("X-Note", "bad\u{1}".to_string());
    let e = req.assign_from_optional_header("x-note", &mut field).unwrap_err();
    assert_eq!(e.kind, ExtractErrorKind::Malformed);
    assert_eq!(e.field, "x-note");
    assert_eq!(field, Some("new".to_string()));
}

#[test]
fn list_objects_v2_extract_reads_the_request_payer() {
    let mut req = Request::new("GET", "/b", "list-type=2");
    req.headers.set("X-Amz-Request-Payer", "requester".to_string());
    let query = GetQuery {
        delimiter: Some("/".to_string()),
        encoding_type: Some("url".to_string()),
        fetch_owner: Some(true),
        prefix: Some("p".to_string()),
        start_after: Some("s".to_string()),
        ..GetQuery::default()
    };
    let input = list_objects_v2::extract(&req, query, "bkt").unwrap();
    assert_eq!(input.bucket, "bkt");
    assert_eq!(input.request_payer, Some("requester".to_string()));
    assert_eq!(input.delimiter, Some("/".to_string()));
    assert_eq!(input.encoding_type, Some("url".to_string()));
    assert_eq!(input.fetch_owner, Some(true));
    assert_eq!(input.prefix, Some("p".to_string()));
    assert_eq!(input.start_after, Some("s".to_string()));
    assert_eq!(input.continuation_token, None);
    assert_eq!(input.max_keys, None);
}

#[test]
fn list_objects_v2_extract_fails_on_a_malformed_header() {
    let mut req = Request::new("GET", "/b", "");
    req.headers.set("x-amz-request-payer", "requester\u{0}".to_string());
    let e = list_objects_v2::extract(&req, GetQuery::default(), "bkt").unwrap_err();
    assert_eq!(e.kind, ExtractErrorKind::Malformed);
    assert_eq!(e.field, "x-amz-request-payer");
}

#[test]
fn extraction_does_not_change_the_request() {
    let mut req = Request::new("PUT", "/my-bucket", "a=b");
    req.headers.set("x-amz-acl", "private".to_string());
    let _ = create_bucket::extract(&req, "my-bucket").unwrap();
    assert_eq!(req.method, "PUT");
    assert_eq!(req.path, "/my-bucket");
    assert_eq!(req.query, "a=b");
    assert_eq!(req.headers.len(), 1);
    assert!(req.body.is_empty());
}

#[test]
fn create_bucket_output_round_trip() {
    for location in [None, Some("/my-bucket".to_string()), Some(String::new())] {
        let out = CreateBucketOutput { location };
        let res = out.clone().try_into_response().unwrap();
        assert_eq!(create_bucket::parse_output(res.headers()), out);
    }
}

#[test]
fn every_code_has_its_status_and_message() {
    let expected = [
        (S3ErrorCode::AccessDenied, "AccessDenied", 403),
        (S3ErrorCode::BucketAlreadyExists, "BucketAlreadyExists", 409),
        (S3ErrorCode::BucketAlreadyOwnedByYou, "BucketAlreadyOwnedByYou", 409),
        (S3ErrorCode::BucketNotEmpty, "BucketNotEmpty", 409),
        (S3ErrorCode::InternalError, "InternalError", 500),
        (S3ErrorCode::InvalidArgument, "InvalidArgument", 400),
        (S3ErrorCode::InvalidBucketName, "InvalidBucketName", 400),
        (S3ErrorCode::InvalidRequest, "InvalidRequest", 400),
        (S3ErrorCode::MalformedXML, "MalformedXML", 400),
        (S3ErrorCode::MethodNotAllowed, "MethodNotAllowed", 405),
        (S3ErrorCode::MissingSecurityHeader, "MissingSecurityHeader", 400),
        (S3ErrorCode::NoSuchBucket, "NoSuchBucket", 404),
        (S3ErrorCode::NoSuchKey, "NoSuchKey", 404),
        (S3ErrorCode::NoSuchUpload, "NoSuchUpload", 404),
        (S3ErrorCode::NotImplemented, "NotImplemented", 501),
        (S3ErrorCode::PreconditionFailed, "PreconditionFailed", 412),
    ];
    let all = S3ErrorCode::all();
    assert_eq!(all.len(), expected.len());
    for (code, name, status) in expected {
        assert!(all.contains(&code));
        assert_eq!(code.as_str(), name);
        assert_eq!(code.as_status_code(), status);
        assert!(!code.as_default_message().is_empty());
        assert_eq!(S3ErrorCode::from_name(name), Some(code));
    }
    assert_eq!(S3ErrorCode::from_name("nosuchbucket"), None);
    assert_eq!(S3ErrorCode::from_name(""), None);
    assert_eq!(
        S3ErrorCode::NoSuchBucket.as_default_message(),
        "The specified bucket does not exist."
    );
}

#[test]
fn the_message_never_changes_status_or_code() {
    for message in ["", "first", "second <msg>"] {
        for (error, code) in [
            (CreateBucketError::BucketAlreadyExists(message.to_string()), "BucketAlreadyExists"),
            (
                CreateBucketError::BucketAlreadyOwnedByYou(message.to_string()),
                "BucketAlreadyOwnedByYou",
            ),
        ] {
            assert_eq!(error.code().as_str(), code);
            let res = error.try_into_response().unwrap();
            assert_eq!(res.status(), 409);
            assert!(xml(&res).starts_with(&format!("<Error><Code>{}</Code><Message>", code)));
        }
    }
}

#[test]
fn an_error_without_a_message_uses_the_default() {
    let e = XmlErrorResponse::from_code_message(S3ErrorCode::NoSuchKey, None);
    assert_eq!(e.message, "The specified key does not exist.");
    let res = e.try_into_response().unwrap();
    assert_eq!(res.status(), 404);
    assert_eq!(
        xml(&res),
        "<Error><Code>NoSuchKey</Code><Message>The specified key does not exist.</Message></Error>"
    );
}

#[test]
fn an_error_names_resource_and_request_when_given() {
    let mut e =
        XmlErrorResponse::from_code_message(S3ErrorCode::AccessDenied, Some("no".to_string()));
    e.resource = Some("/b/k".to_string());
    e.request_id = Some("r-1".to_string());
    let res = e.try_into_response().unwrap();
    assert_eq!(res.status(), 403);
    assert_eq!(
        xml(&res),
        "<Error><Code>AccessDenied</Code><Message>no</Message>\
         <Resource>/b/k</Resource><RequestId>r-1</RequestId></Error>"
    );
}

#[test]
fn tokens_of_a_text() {
    assert_eq!(tokenize(""), Some(Vec::new()));
    assert_eq!(
        tokenize("<a>x &amp; &lt;y&gt;</a><b></b>"),
        Some(vec![
            Token::Open("a".to_string()),
            Token::Text("x & <y>".to_string()),
            Token::Close("a".to_string()),
            Token::Open("b".to_string()),
            Token::Close("b".to_string()),
        ])
    );
    assert_eq!(tokenize("a>b"), Some(vec![Token::Text("a>b".to_string())]));
    assert_eq!(tokenize("<a"), None);
    assert_eq!(tokenize("<>"), None);
    assert_eq!(tokenize("</>"), None);
    assert_eq!(tokenize("<a b>"), None);
    assert_eq!(tokenize("<a/>"), None);
    assert_eq!(tokenize("x&y"), None);
    assert_eq!(tokenize("x&amp"), None);
    assert_eq!(tokenize("&lt"), None);
    assert_eq!(tokenize("&gt;&lt;&amp;"), Some(vec![Token::Text("><&".to_string())]));
}
