use http_core::http_compression::{compress, decompress, ContentEncoding};
use http_core::http_headers::Headers;
use http_core::http_request::HTTPRequest;
use http_core::http_response::HTTPResponse;

fn headers(fields: &[(&str, &str)]) -> Headers {
    let mut headers = Headers::new();
    for (name, value) in fields {
        headers.insert(name.to_string(), value.to_string());
    }
    headers
}

fn response(status: u16, reason: &str, fields: Option<&[(&str, &str)]>, body: Option<&[u8]>) -> HTTPResponse {
    HTTPResponse {
        status,
        reason: reason.to_string(),
        headers: fields.map(headers),
        body: body.map(|b| b.to_vec()),
    }
}

fn split_head(bytes: &[u8]) -> (String, Vec<u8>) {
    let end = bytes.windows(4).position(|w| w == b"\r\n\r\n").unwrap() + 4;
    (String::from_utf8(bytes[..end].to_vec()).unwrap(), bytes[end..].to_vec())
}

#[test]
fn new_empty_body_keeps_what_it_is_given() {
    let built = HTTPResponse::new_empty_body(204, "No Content".to_string(), Some(headers(&[("A", "b")])));
    assert_eq!(built.status, 204);
    assert_eq!(built.reason, "No Content");
    assert_eq!(built.headers.as_ref().unwrap().len(), 1);
    assert_eq!(built.headers.as_ref().unwrap().get("A").map(|v| v.as_str()), Some("b"));
    assert_eq!(built.body, None);
    let bare = HTTPResponse::new_empty_body(200, "OK".to_string(), None);
    assert!(bare.headers.is_none());
    assert_eq!(bare.body, None);
}

#[test]
fn serialises_a_body_with_its_length() {
    let bytes = response(200, "OK", None, Some(b"abc")).serialise();
    assert_eq!(bytes, b"HTTP/1.1 200 OK\r\nContent-Length: 3\r\n\r\nabc");
}

#[test]
fn serialises_a_response_without_body() {
    let bytes = response(404, "Not Found", None, None).serialise();
    assert_eq!(bytes, b"HTTP/1.1 404 Not Found\r\n\r\n");
    let bytes = HTTPResponse::new_empty_body(200, "OK".to_string(), None).serialise();
    assert_eq!(bytes, b"HTTP/1.1 200 OK\r\n\r\n");
}

#[test]
fn serialises_an_empty_body_with_length_zero() {
    let bytes = response(200, "OK", None, Some(b"")).serialise();
    assert_eq!(bytes, b"HTTP/1.1 200 OK\r\nContent-Length: 0\r\n\r\n");
}

#[test]
fn serialises_headers_in_their_order() {
    let fields = [("Server", "core"), ("Content-Type", "text/plain"), ("X-A", "1")];
    let bytes = response(200, "OK", Some(&fields), Some(b"hello")).serialise();
    assert_eq!(
        bytes,
        b"HTTP/1.1 200 OK\r\nServer: core\r\nContent-Type: text/plain\r\nX-A: 1\r\nContent-Length: 5\r\n\r\nhello"
    );
    let bytes = response(204, "No Content", Some(&fields), None).serialise();
    assert_eq!(
        bytes,
        b"HTTP/1.1 204 No Content\r\nServer: core\r\nContent-Type: text/plain\r\nX-A: 1\r\n\r\n"
    );
}

#[test]
fn serialises_empty_headers_like_none() {
    let bytes = response(200, "OK", Some(&[]), Some(b"abc")).serialise();
    assert_eq!(bytes, b"HTTP/1.1 200 OK\r\nContent-Length: 3\r\n\r\nabc");
}

#[test]
fn writes_the_status_in_decimal() {
    for (status, text) in [(100u16, "100"), (599, "599"), (200, "200"), (0, "0"), (7, "7"), (65535, "65535")] {
        let bytes = response(status, "X", None, None).serialise();
        assert_eq!(bytes, format!("HTTP/1.1 {} X\r\n\r\n", text).as_bytes());
    }
}

#[test]
fn has_status_code_tells_the_range() {
    for (status, expected) in [(99u16, false), (100, true), (200, true), (599, true), (600, false), (0, false)] {
        assert_eq!(response(status, "X", None, None).has_status_code(), expected);
    }
}

#[test]
fn writes_a_reason_that_is_not_ascii_as_utf8() {
    let bytes = response(200, "G\u{fc}t", None, None).serialise();
    assert_eq!(bytes, "HTTP/1.1 200 G\u{fc}t\r\n\r\n".as_bytes());
}

#[test]
fn states_the_length_itself_and_leaves_a_given_one_out() {
    let fields = [("Content-Length", "999"), ("A", "b"), ("content-length", "7")];
    let bytes = response(200, "OK", Some(&fields), Some(b"abc")).serialise();
    assert_eq!(bytes, b"HTTP/1.1 200 OK\r\nA: b\r\nContent-Length: 3\r\n\r\nabc");
    let bytes = response(200, "OK", Some(&fields), None).serialise();
    assert_eq!(bytes, b"HTTP/1.1 200 OK\r\nA: b\r\n\r\n");
}

#[test]
fn compresses_the_body_under_gzip() {
    let fields = [("Content-Encoding", "gzip")];
    let bytes = response(200, "OK", Some(&fields), Some(b"abc")).serialise();
    let packed = compress(ContentEncoding::GZIP, b"abc").unwrap();
    assert_ne!(packed.len(), 3);
    let (head, payload) = split_head(&bytes);
    assert_eq!(
        head,
        format!("HTTP/1.1 200 OK\r\nContent-Encoding: gzip\r\nContent-Length: {}\r\n\r\n", packed.len())
    );
    assert_eq!(payload, packed);
    assert_eq!(decompress(ContentEncoding::GZIP, &payload), Ok(b"abc".to_vec()));
}

#[test]
fn compresses_the_body_under_deflate() {
    let body = "abc".repeat(500);
    let fields = [("Content-Encoding", "deflate"), ("X", "y")];
    let bytes = response(200, "OK", Some(&fields), Some(body.as_bytes())).serialise();
    let packed = compress(ContentEncoding::DEFLATE, body.as_bytes()).unwrap();
    assert!(packed.len() < body.len());
    let (head, payload) = split_head(&bytes);
    assert_eq!(
        head,
        format!(
            "HTTP/1.1 200 OK\r\nContent-Encoding: deflate\r\nX: y\r\nContent-Length: {}\r\n\r\n",
            packed.len()
        )
    );
    assert_eq!(payload, packed);
    assert_eq!(decompress(ContentEncoding::DEFLATE, &payload), Ok(body.into_bytes()));
}

#[test]
fn leaves_the_body_as_it_is_under_other_encodings() {
    for token in ["identity", "br", "GZIP", ""] {
        let fields = [("Content-Encoding", token)];
        let bytes = response(200, "OK", Some(&fields), Some(b"abc")).serialise();
        assert_eq!(
            bytes,
            format!("HTTP/1.1 200 OK\r\nContent-Encoding: {}\r\nContent-Length: 3\r\n\r\nabc", token).as_bytes()
        );
    }
}

#[test]
fn looks_content_encoding_up_by_its_exact_name() {
    let fields = [("content-encoding", "gzip")];
    let bytes = response(200, "OK", Some(&fields), Some(b"abc")).serialise();
    assert_eq!(bytes, b"HTTP/1.1 200 OK\r\ncontent-encoding: gzip\r\nContent-Length: 3\r\n\r\nabc");
}

#[test]
fn does_not_compress_where_there_is_no_body() {
    let fields = [("Content-Encoding", "gzip")];
    let bytes = response(200, "OK", Some(&fields), None).serialise();
    assert_eq!(bytes, b"HTTP/1.1 200 OK\r\nContent-Encoding: gzip\r\n\r\n");
}

#[test]
fn frames_a_given_payload_as_it_is() {
    let fields = [("Content-Encoding", "gzip")];
    let bytes = response(200, "OK", Some(&fields), Some(b"ignored"))
        .serialise_with_payload(Some(vec![1, 2, 3, 4]));
    assert_eq!(
        bytes,
        b"HTTP/1.1 200 OK\r\nContent-Encoding: gzip\r\nContent-Length: 4\r\n\r\n\x01\x02\x03\x04"
    );
    let bytes = response(200, "OK", None, Some(b"ignored")).serialise_with_payload(None);
    assert_eq!(bytes, b"HTTP/1.1 200 OK\r\n\r\n");
}

#[test]
fn states_the_length_of_a_long_payload() {
    let body = vec![b'x'; 123456];
    let bytes = response(200, "OK", None, Some(&body)).serialise();
    let (head, payload) = split_head(&bytes);
    assert_eq!(head, "HTTP/1.1 200 OK\r\nContent-Length: 123456\r\n\r\n");
    assert_eq!(payload, body);
}

#[test]
fn the_stated_length_is_the_length_of_what_follows_the_head() {
    let bodies: [&[u8]; 3] = [b"", b"abc", b"line one\r\n\r\nline two"];
    for body in bodies {
        for token in ["gzip", "deflate", "identity"] {
            let encoding = ContentEncoding::from_string(token);
            let fields = [("Content-Encoding", token), ("Server", "core")];
            let bytes = response(200, "OK", Some(&fields), Some(body)).serialise();
            let mut message = b"POST / HTTP/1.1\r\n".to_vec();
            let first_line = bytes.windows(2).position(|w| w == b"\r\n").unwrap() + 2;
            message.extend_from_slice(&bytes[first_line..]);
            let read = HTTPRequest::deserialise(&message).unwrap();
            let payload = read.body.unwrap();
            let stated: usize = read.headers.get("Content-Length").unwrap().parse().unwrap();
            assert_eq!(stated, payload.len());
            assert_eq!(stated, compress(encoding, body).unwrap().len());
            assert_eq!(bytes.len(), bytes.len() - payload.len() + stated);
            assert!(bytes.ends_with(&payload));
            assert_eq!(decompress(encoding, &payload), Ok(body.to_vec()));
        }
    }
}
