//! Responses: the message model and the serialiser that frames one for the
//! wire.

use crate::decimal::{append_decimal, decimal_digits};
use crate::http_compression::{compress, compressed, encoding_of, ContentEncoding};
use crate::http_headers::{field_block, field_lines, lookup, write_field, Headers};
use crate::lines::{write_line, CR, LF};
use crate::text::{eq_ignore_ascii_case, str_eq_ignore_ascii_case};
use vstd::prelude::*;
use vstd::string::StringExecFns;
use vstd::utf8::encode_utf8;

verus! {

/// A response as its handler built it.
#[derive(Debug)]
pub struct HTTPResponse {
    /// The status code, from 100 to 599.
    pub status: u16,
    /// The reason phrase that goes with the status code.
    pub reason: String,
    pub headers: Option<Headers>,
    /// The payload, before any compression.
    pub body: Option<Vec<u8>>,
}

/// What a response holds, as mathematical values.
pub struct ResponseView {
    pub status: u16,
    pub reason: Seq<char>,
    pub headers: Option<Seq<(Seq<char>, Seq<char>)>>,
    pub body: Option<Seq<u8>>,
}

impl View for HTTPResponse {
    type V = ResponseView;

    open spec fn view(&self) -> ResponseView {
        ResponseView {
            status: self.status,
            reason: self.reason@,
            headers: match self.headers {
                Some(h) => Some(h@),
                None => None,
            },
            body: match self.body {
                Some(b) => Some(b@),
                None => None,
            },
        }
    }
}

/// Tells whether `status` is a status code: a number from 100 to 599.
pub open spec fn is_status_code(status: u16) -> bool {
    100 <= status <= 599
}

/// The text of the first line of a response.
pub open spec fn status_text(status: u16, reason: Seq<char>) -> Seq<char> {
    "HTTP/1.1 "@ + decimal_digits(status as nat) + " "@ + reason
}

/// Tells whether `name` names the `Content-Length` header, in any case of
/// its letters.
pub open spec fn names_content_length(name: Seq<char>) -> bool {
    eq_ignore_ascii_case(name, "Content-Length"@)
}

/// `fields` without those named `Content-Length`.
pub open spec fn without_content_length(fields: Seq<(Seq<char>, Seq<char>)>) -> Seq<
    (Seq<char>, Seq<char>),
>
    decreases fields.len(),
{
    if fields.len() == 0 {
        Seq::empty()
    } else if names_content_length(fields.last().0) {
        without_content_length(fields.drop_last())
    } else {
        without_content_length(fields.drop_last()).push(fields.last())
    }
}

/// The header field that states the length of a payload.
pub open spec fn content_length_field(payload: Seq<u8>) -> (Seq<char>, Seq<char>) {
    ("Content-Length"@, decimal_digits(payload.len()))
}

/// The header fields that a response goes out with: its own in their order,
/// but for any named `Content-Length`; then, where there is a payload, the
/// one that states its length.
pub open spec fn emitted_fields(
    headers: Option<Seq<(Seq<char>, Seq<char>)>>,
    payload: Option<Seq<u8>>,
) -> Seq<(Seq<char>, Seq<char>)> {
    let own = match headers {
        Some(fields) => without_content_length(fields),
        None => Seq::empty(),
    };
    match payload {
        Some(p) => own.push(content_length_field(p)),
        None => own,
    }
}

/// The bytes of a response that carries `payload`: the status line, the
/// header block of the emitted fields, and the payload as it is.
pub open spec fn framed(response: ResponseView, payload: Option<Seq<u8>>) -> Seq<u8> {
    encode_utf8(status_text(response.status, response.reason)) + seq![CR, LF] + field_block(
        emitted_fields(response.headers, payload),
    ) + match payload {
        Some(p) => p,
        None => Seq::empty(),
    }
}

/// The encoding that the headers of a response ask for: what the value of
/// `Content-Encoding` names, where that header is present.
pub open spec fn requested_encoding(headers: Option<Seq<(Seq<char>, Seq<char>)>>) -> Option<
    ContentEncoding,
> {
    match headers {
        Some(fields) => match lookup(fields, "Content-Encoding"@) {
            Some(value) => Some(encoding_of(value)),
            None => None,
        },
        None => None,
    }
}

/// The payload for `body` under the encoding asked for: the compressed
/// bytes, or `body` as it is where no encoding is asked for or the codec
/// fails.
pub open spec fn encoded_body(encoding: Option<ContentEncoding>, body: Seq<u8>) -> Seq<u8> {
    match encoding {
        Some(encoding) => match compressed(encoding, body) {
            Some(bytes) => bytes,
            None => body,
        },
        None => body,
    }
}

/// The payload that a response goes out with: its body under the encoding
/// that its headers ask for.
pub open spec fn payload_of(response: ResponseView) -> Option<Seq<u8>> {
    match response.body {
        Some(body) => Some(encoded_body(requested_encoding(response.headers), body)),
        None => None,
    }
}

/// The bytes that a response goes out as.
pub open spec fn serialised(response: ResponseView) -> Seq<u8> {
    framed(response, payload_of(response))
}

/// Appends to `out` the lines of the fields of `headers` that are not named
/// `Content-Length`.
fn write_own_fields(out: &mut Vec<u8>, headers: &Headers)
    ensures
        final(out)@ == old(out)@ + field_lines(without_content_length(headers@)),
{
    let n = headers.len();
    let mut i: usize = 0;
    while i < n
        invariant
            i <= n,
            n == headers@.len(),
            out@ == old(out)@ + field_lines(
                without_content_length(headers@.subrange(0, i as int)),
            ),
        decreases n - i,
    {
        let name = headers.name_at(i);
        let ghost kept = without_content_length(headers@.subrange(0, i as int));
        let ghost prefix = headers@.subrange(0, i + 1);
        proof {
            assert(prefix.drop_last() =~= headers@.subrange(0, i as int));
        }
        if !str_eq_ignore_ascii_case(name.as_str(), "Content-Length") {
            write_field(out, name.as_str(), headers.value_at(i).as_str());
            proof {
                let grown = kept.push(headers@[i as int]);
                assert(grown.drop_last() =~= kept);
            }
        }
        i += 1;
    }
    assert(headers@.subrange(0, n as int) =~= headers@);
}

impl HTTPResponse {
    /// A response without a payload.
    pub fn new_empty_body(status: u16, reason: String, headers: Option<Headers>) -> (r:
        HTTPResponse)
        ensures
            r.status == status,
            r.reason == reason,
            r.headers == headers,
            r.body is None,
    {
        HTTPResponse { status, reason, headers, body: None }
    }

    /// Tells whether the status is a status code.
    pub fn has_status_code(&self) -> (r: bool)
        ensures
            r == is_status_code(self.status),
    {
        100 <= self.status && self.status <= 599
    }

    /// Frames the response around `payload`, which goes out as it is in
    /// place of the body: the status line, the lines of the headers in their
    /// order, the length of the payload, the empty line and the payload. A
    /// header named `Content-Length` is left out: the length that is stated
    /// is that of `payload`.
    pub fn serialise_with_payload(self, payload: Option<Vec<u8>>) -> (bytes: Vec<u8>)
        ensures
            bytes@ == framed(
                self@,
                match payload {
                    Some(p) => Some(p@),
                    None => None,
                },
            ),
    {
        let mut bytes: Vec<u8> = Vec::new();
        let mut line = String::from_str("HTTP/1.1 ");
        append_decimal(&mut line, self.status as usize);
        line.append(" ");
        line.append(self.reason.as_str());
        write_line(&mut bytes, line.as_str());
        let ghost own = match self@.headers {
            Some(fields) => without_content_length(fields),
            None => Seq::empty(),
        };
        match &self.headers {
            Some(headers) => {
                write_own_fields(&mut bytes, headers);
            },
            None => {},
        }
        let ghost start = encode_utf8(status_text(self.status, self.reason@)) + seq![CR, LF];
        assert(bytes@ =~= start + field_lines(own));
        match payload {
            Some(mut p) => {
                let mut digits = String::new();
                append_decimal(&mut digits, p.len());
                write_field(&mut bytes, "Content-Length", digits.as_str());
                bytes.push(CR);
                bytes.push(LF);
                proof {
                    let all = own.push(content_length_field(p@));
                    assert(all.drop_last() =~= own);
                }
                bytes.append(&mut p);
                bytes
            },
            None => {
                bytes.push(CR);
                bytes.push(LF);
                bytes
            },
        }
    }

    /// The bytes that the response goes out as. The body is compressed under
    /// the encoding that the `Content-Encoding` header of the response names;
    /// where the codec fails it goes out as it is.
    pub fn serialise(self) -> (bytes: Vec<u8>)
        ensures
            bytes@ == serialised(self@),
    {
        let mut this = self;
        let body = this.body.take();
        let payload = match body {
            Some(body) => {
                let encoding = match &this.headers {
                    Some(headers) => match headers.get("Content-Encoding") {
                        Some(value) => Some(ContentEncoding::from_string(value.as_str())),
                        None => None,
                    },
                    None => None,
                };
                match encoding {
                    Some(encoding) => match compress(encoding, body.as_slice()) {
                        Ok(bytes) => Some(bytes),
                        Err(_) => Some(body),
                    },
                    None => Some(body),
                }
            },
            None => None,
        };
        this.serialise_with_payload(payload)
    }
}

} // verus!
