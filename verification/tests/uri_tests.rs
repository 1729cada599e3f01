use uringy::http::uri::parse_partial_uri;
use uringy::http::uri::parse_query;

#[test]
fn root_path() {
    let (path, query) = parse_partial_uri(b"/");

    assert_eq!(path, b"/");
    assert!(query.is_empty());
}

#[test]
fn path() {
    let (path, query) = parse_partial_uri(b"/foo/bar");

    assert_eq!(path, b"/foo/bar");
    assert!(query.is_empty());
}

#[test]
fn json_path() {
    let (path, query) = parse_partial_uri(br#"/{"foo":"bar"}"#);

    assert_eq!(path, br#"/{"foo":"bar"}"#);
    assert!(query.is_empty());
}

#[test]
fn root_path_with_query() {
    let (path, query) = parse_partial_uri(b"/?id=123&f");

    assert_eq!(path, b"/");
    assert_eq!(query, b"id=123&f");
}

#[test]
fn path_with_query() {
    let (path, query) = parse_partial_uri(b"/foo/bar?id=123&f");

    assert_eq!(path, b"/foo/bar");
    assert_eq!(query, b"id=123&f");
}

#[test]
fn path_ignores_fragment() {
    let (path, query) = parse_partial_uri(b"/foo/bar#abc");

    assert_eq!(path, b"/foo/bar");
    assert!(query.is_empty());
}

#[test]
fn path_with_query_ignores_fragment() {
    let (path, query) = parse_partial_uri(b"/foo/bar?id=123&f#abc");

    assert_eq!(path, b"/foo/bar");
    assert_eq!(query, b"id=123&f");
}

#[test]
fn subsequent_question_marks_are_just_characters() {
    let (path, query) = parse_partial_uri(b"/?id=123?f");

    assert_eq!(path, b"/");
    assert_eq!(query, b"id=123?f");
}

#[test]
fn ignores_valid_percent_encodings() {
    assert_eq!(b"/a%20b", parse_partial_uri(b"/a%20b?r=1").0);
    assert_eq!(b"qr=%31", parse_partial_uri(b"/a/b?qr=%31").1);
}

#[test]
fn ignores_invalid_percent_encodings() {
    assert_eq!(b"/a%%b", parse_partial_uri(b"/a%%b?r=1").0);
    assert_eq!(b"/aaa%", parse_partial_uri(b"/aaa%").0);
    assert_eq!(b"/aaa%", parse_partial_uri(b"/aaa%?r=1").0);
    assert_eq!(b"/aa%2", parse_partial_uri(b"/aa%2").0);
    assert_eq!(b"/aa%2", parse_partial_uri(b"/aa%2?r=1").0);
    assert_eq!(b"qr=%3", parse_partial_uri(b"/a/b?qr=%3").1);
}

#[test]
fn query_keeps_question_marks_and_drops_fragment() {
    assert_eq!(parse_query(b"a=1?b=2#frag"), b"a=1?b=2");
    assert_eq!(parse_query(b""), b"");
}
