use uringy::http::mime::Html;
use uringy::http::payload::AsBody;
use uringy::http::payload::AsRequest;
use uringy::http::payload::AsResponse;
use uringy::http::payload::Method;
use uringy::http::payload::StatusCode;
use uringy::http::payload::bytes_eq;

#[test]
fn as_body_impls() {
    ().contents();
    "".contents();
    "".as_bytes().contents();
}

#[test]
fn as_request_impls() {
    ().as_request(Method::Get, b"/", b"");
    "".as_request(Method::Get, b"/", b"");
    "".as_bytes().as_request(Method::Get, b"/", b"");
}

#[test]
fn as_response_impls() {
    StatusCode::Okay.as_response();

    ().as_response();
    "".as_response();
    "".as_bytes().as_response();
}

#[test]
fn body_contents_and_types() {
    assert_eq!("hi".contents(), b"hi");
    assert_eq!("hi".content_type(), Some("text/plain"));
    assert_eq!(b"hi".as_slice().content_type(), Some("application/octet-stream"));
    assert_eq!(().content_type(), None);

    let wrapped = Html("hi");
    assert_eq!(wrapped.contents(), b"hi");
    assert_eq!(wrapped.content_type(), Some("text/html; charset=utf-8"));
}

#[test]
fn response_carries_content_type() {
    let response = "hello".as_response();
    assert_eq!(u16::from(response.status), 200);
    assert_eq!(response.body, b"hello");
    assert_eq!(response.headers.len(), 1);
    assert_eq!(response.headers[0].0, "content-type");
}

#[test]
fn method_from_name_accepts_the_nine_methods() {
    assert_eq!(Method::from_name(b"GET"), Ok(Method::Get));
    assert_eq!(Method::from_name(b"POST"), Ok(Method::Post));
    assert_eq!(Method::from_name(b"HEAD"), Ok(Method::Head));
    assert_eq!(Method::from_name(b"PUT"), Ok(Method::Put));
    assert_eq!(Method::from_name(b"DELETE"), Ok(Method::Delete));
    assert_eq!(Method::from_name(b"CONNECT"), Ok(Method::Connect));
    assert_eq!(Method::from_name(b"OPTIONS"), Ok(Method::Options));
    assert_eq!(Method::from_name(b"TRACE"), Ok(Method::Trace));
    assert_eq!(Method::from_name(b"PATCH"), Ok(Method::Patch));
}

#[test]
fn method_from_name_rejects_other_names() {
    assert_eq!(Method::from_name(b"get"), Err(()));
    assert_eq!(Method::from_name(b""), Err(()));
    assert_eq!(Method::from_name(b"GETX"), Err(()));
}

#[test]
fn status_codes_on_the_wire() {
    assert_eq!(u16::from(StatusCode::Okay), 200);
    assert_eq!(u16::from(StatusCode::Accepted), 202);
    assert_eq!(u16::from(StatusCode::NotModified), 304);
    assert_eq!(u16::from(StatusCode::TemporaryRedirect), 307);
    assert_eq!(u16::from(StatusCode::BadRequest), 400);
    assert_eq!(u16::from(StatusCode::Unauthorized), 401);
    assert_eq!(u16::from(StatusCode::Forbidden), 403);
    assert_eq!(u16::from(StatusCode::NotFound), 404);
    assert_eq!(u16::from(StatusCode::MethodNotAllowed), 405);
}

#[test]
fn bytes_eq_compares_contents() {
    assert!(bytes_eq(b"abc", b"abc"));
    assert!(!bytes_eq(b"abc", b"abd"));
    assert!(!bytes_eq(b"abc", b"ab"));
}
