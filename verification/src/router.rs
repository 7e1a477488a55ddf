//! The handler: which response answers a request, and under which encoding
//! its payload travels.

use crate::http_compression::{encoding_name, encoding_of, ContentEncoding};
use crate::http_headers::{lookup_ignore_case, Headers};
use crate::http_request::{HTTPRequest, RequestView};
use crate::http_response::{is_status_code, HTTPResponse, ResponseView};
use crate::text::{str_eq, str_starts_with};
use vstd::prelude::*;
use vstd::string::{StrSliceExecFns, StringExecFns};
use vstd::utf8::encode_utf8;

verus! {

/// The headers that state the encoding of a response to a request with the
/// headers `request_headers`: `Content-Encoding` with the encoding that the
/// value of `Accept-Encoding` names, unless that is absent or names the
/// identity.
pub open spec fn negotiated_headers(request_headers: Seq<(Seq<char>, Seq<char>)>) -> Seq<
    (Seq<char>, Seq<char>),
> {
    match lookup_ignore_case(request_headers, "Accept-Encoding"@) {
        Some(accepted) => if encoding_of(accepted) != ContentEncoding::IDENTITY {
            seq![("Content-Encoding"@, encoding_name(encoding_of(accepted)))]
        } else {
            Seq::empty()
        },
        None => Seq::empty(),
    }
}

/// A response without headers and without a payload.
pub open spec fn bare_response(status: u16, reason: Seq<char>) -> ResponseView {
    ResponseView { status, reason, headers: None, body: None }
}

/// A response `200 OK` that carries `text`. Its headers are the negotiated
/// ones, and it has none where nothing was negotiated.
pub open spec fn text_response(request: RequestView, text: Seq<char>) -> ResponseView {
    let negotiated = negotiated_headers(request.headers);
    ResponseView {
        status: 200,
        reason: "OK"@,
        headers: if negotiated.len() == 0 {
            None
        } else {
            Some(negotiated)
        },
        body: Some(encode_utf8(text)),
    }
}

/// The response that answers `request`.
///
/// - `/` is answered by `200 OK` without a payload;
/// - `/echo/` followed by a text is answered by that text;
/// - `/user-agent` is answered by the value of the `User-Agent` header, and by
///   `400 Bad Request` where the request has none;
/// - any other target is answered by `404 Not Found`.
pub open spec fn routed(request: RequestView) -> ResponseView {
    if request.target == "/"@ {
        bare_response(200, "OK"@)
    } else if "/echo/"@.is_prefix_of(request.target) {
        text_response(
            request,
            request.target.subrange("/echo/"@.len() as int, request.target.len() as int),
        )
    } else if request.target == "/user-agent"@ {
        match lookup_ignore_case(request.headers, "User-Agent"@) {
            Some(agent) => text_response(request, agent),
            None => bare_response(400, "Bad Request"@),
        }
    } else {
        bare_response(404, "Not Found"@)
    }
}

/// Every response of the handler has a status code.
pub proof fn lemma_routed_status(request: RequestView)
    ensures
        is_status_code(routed(request).status),
{
}

/// The headers that state the encoding of a response to `request`.
pub fn negotiate(request: &HTTPRequest) -> (headers: Headers)
    ensures
        headers@ == negotiated_headers(request@.headers),
{
    let mut headers = Headers::new();
    match request.headers.get_ignore_case("Accept-Encoding") {
        Some(accepted) => {
            let encoding = ContentEncoding::from_string(accepted.as_str());
            if encoding != ContentEncoding::IDENTITY {
                headers.insert(String::from_str("Content-Encoding"), encoding.to_string());
            }
        },
        None => {},
    }
    headers
}

/// The response `200 OK` that carries `text` in answer to `request`.
fn respond_with_text(request: &HTTPRequest, text: &str) -> (response: HTTPResponse)
    ensures
        response@ == text_response(request@, text@),
{
    let negotiated = negotiate(request);
    HTTPResponse {
        status: 200,
        reason: String::from_str("OK"),
        headers: if negotiated.len() == 0 {
            None
        } else {
            Some(negotiated)
        },
        body: Some(text.as_bytes_vec()),
    }
}

/// The response that answers `request`.
pub fn router(request: &HTTPRequest) -> (response: HTTPResponse)
    ensures
        response@ == routed(request@),
{
    let target = request.target.as_str();
    if str_eq(target, "/") {
        HTTPResponse::new_empty_body(200, String::from_str("OK"), None)
    } else if str_starts_with(target, "/echo/") {
        proof {
            reveal_strlit("/echo/");
        }
        respond_with_text(request, target.substring_char(6, target.unicode_len()))
    } else if str_eq(target, "/user-agent") {
        match request.headers.get_ignore_case("User-Agent") {
            Some(agent) => respond_with_text(request, agent.as_str()),
            None => HTTPResponse::new_empty_body(400, String::from_str("Bad Request"), None),
        }
    } else {
        HTTPResponse::new_empty_body(404, String::from_str("Not Found"), None)
    }
}

} // verus!
