use httpcore::request::{Request, RequestError};

#[test]
fn parses_a_plain_request_line() {
    let data = b"GET / HTTP/1.1\r\nHost: example\r\n\r\n";
    let req = Request::from(data).unwrap();
    assert_eq!(req.method().as_str(), "GET");
    assert_eq!(req.uri().as_str(), "/");
    assert_eq!(req.protocol().as_str(), "HTTP/1.1");
    assert!(req.headers().is_none());
    assert!(req.body().is_none());
}

#[test]
fn extra_tokens_are_ignored() {
    let data = b"POST /submit HTTP/1.1 extra junk\r\n";
    let req = Request::from(data).unwrap();
    assert_eq!(req.method().as_str(), "POST");
    assert_eq!(req.uri().as_str(), "/submit");
    assert_eq!(req.protocol().as_str(), "HTTP/1.1");
}

#[test]
fn bare_line_feed_terminates_the_line() {
    let data = b"PUT /x HTTP/1.0\nrest";
    let req = Request::from(data).unwrap();
    assert_eq!(req.method().as_str(), "PUT");
    assert_eq!(req.uri().as_str(), "/x");
    assert_eq!(req.protocol().as_str(), "HTTP/1.0");
}

#[test]
fn empty_stream_is_rejected() {
    assert_eq!(Request::from(b"").unwrap_err(), RequestError::Empty);
}

#[test]
fn stream_without_line_end_is_rejected() {
    let data = vec![b'a'; 1024];
    assert_eq!(Request::from(&data).unwrap_err(), RequestError::NoLineEnd);
    assert_eq!(Request::from(b"GET / HTTP/1.1").unwrap_err(), RequestError::NoLineEnd);
}

#[test]
fn short_request_line_is_rejected() {
    assert_eq!(Request::from(b"GET /\r\n").unwrap_err(), RequestError::MissingParts);
    assert_eq!(Request::from(b"GET\n").unwrap_err(), RequestError::MissingParts);
    assert_eq!(Request::from(b"   \r\n").unwrap_err(), RequestError::MissingParts);
}

#[test]
fn invalid_utf8_line_is_rejected() {
    let data = b"G\xffT / HTTP/1.1\r\n";
    assert_eq!(Request::from(data).unwrap_err(), RequestError::InvalidEncoding);
}

#[test]
fn request_new_assembles_parts() {
    let req = Request::new(
        "HTTP/1.1".to_string(),
        "GET".to_string(),
        "/".to_string(),
        Some(vec![("Host".to_string(), "example".to_string())]),
        Some(vec![1, 2, 3]),
    );
    assert_eq!(req.protocol().as_str(), "HTTP/1.1");
    assert_eq!(req.method().as_str(), "GET");
    assert_eq!(req.uri().as_str(), "/");
    assert_eq!(req.headers().unwrap().len(), 1);
    assert_eq!(req.body().unwrap(), &vec![1, 2, 3]);
}

#[test]
fn tabs_separate_tokens_too() {
    let data = b"GET\t/path\tHTTP/1.1\n";
    let req = Request::from(data).unwrap();
    assert_eq!(req.uri().as_str(), "/path");
}
