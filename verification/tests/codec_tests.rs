use httpcore::http_codec::{HttpCodec, HttpResponse};

#[test]
fn encodes_a_full_response() {
    let res = HttpResponse::new(
        200,
        "OK".to_string(),
        vec![("Content-Type".to_string(), "text/html".to_string())],
        b"hi".to_vec(),
    );
    let mut buf = Vec::new();
    let n = res.encode_to(&mut buf);
    let expected = b"HTTP/1.1 200 OK\r\nContent-Type: text/html\r\n\r\nhi".to_vec();
    assert_eq!(buf, expected);
    assert_eq!(n, expected.len());
}

#[test]
fn encodes_multiple_headers_in_order() {
    let res = HttpResponse::new(
        404,
        "Not Found".to_string(),
        vec![
            ("Content-Type".to_string(), "text/plain".to_string()),
            ("Content-Length".to_string(), "0".to_string()),
        ],
        Vec::new(),
    );
    let mut buf = Vec::new();
    res.encode_to(&mut buf);
    let expected =
        b"HTTP/1.1 404 Not Found\r\nContent-Type: text/plain\r\nContent-Length: 0\r\n\r\n"
            .to_vec();
    assert_eq!(buf, expected);
}

#[test]
fn encodes_without_headers_or_body() {
    let res = HttpResponse::new(500, "Oops".to_string(), Vec::new(), Vec::new());
    let mut buf = Vec::new();
    let n = res.encode_to(&mut buf);
    assert_eq!(buf, b"HTTP/1.1 500 Oops\r\n\r\n".to_vec());
    assert_eq!(n, buf.len());
}

#[test]
fn encoding_appends_to_the_buffer() {
    let res = HttpResponse::new(204, "No Content".to_string(), Vec::new(), Vec::new());
    let mut buf = b"prefix".to_vec();
    let n = res.encode_to(&mut buf);
    assert!(buf.starts_with(b"prefix"));
    assert_eq!(&buf[6..], b"HTTP/1.1 204 No Content\r\n\r\n");
    assert_eq!(n, buf.len() - 6);
}

#[test]
fn status_digits_are_decimal() {
    for (code, digits) in [(0u16, "0"), (7, "7"), (42, "42"), (65535, "65535")] {
        let res = HttpResponse::new(code, "X".to_string(), Vec::new(), Vec::new());
        let mut buf = Vec::new();
        res.encode_to(&mut buf);
        let expected = format!("HTTP/1.1 {} X\r\n\r\n", digits).into_bytes();
        assert_eq!(buf, expected);
    }
}
