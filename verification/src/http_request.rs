//! Requests: the message model and the parser that reads one from the bytes
//! that a connection delivered.

use crate::decimal::{parse_decimal, read_decimal};
use crate::http_headers::{
    distinct_names, inserted, lemma_inserted_distinct, lookup, Headers,
};
use crate::lines::{
    find_crlf, find_line_end, lemma_find_crlf_extended, lemma_find_crlf_found, text_of,
};
use crate::text::{chars_of, find_char, split_once, str_eq, trim, trim_bounds};
use vstd::prelude::*;
use vstd::slice::{slice_subrange, slice_to_vec};
use vstd::string::{StrSliceExecFns, StringExecFns};
use vstd::utf8::{decode_utf8, valid_utf8};

verus! {

/// The request methods that the server knows.
#[derive(Clone, Copy, Debug, PartialEq, Eq, Structural)]
pub enum HTTPMethod {
    GET,
    POST,
}

/// A request as the parser read it.
#[derive(Debug)]
pub struct HTTPRequest {
    pub method: HTTPMethod,
    /// The request target, as it was sent.
    pub target: String,
    pub headers: Headers,
    /// The payload, present where the request declared a length.
    pub body: Option<Vec<u8>>,
}

/// Why a buffer is not a request.
#[derive(Clone, Copy, Debug, PartialEq, Eq, Structural)]
pub enum ParseError {
    /// The first line is not ended by CRLF, is not UTF-8 or is not made of
    /// a method, a target and a version with one space between them.
    MalformedStartLine,
    /// The method is none that the server knows.
    UnrecognizedMethod,
    /// A header line is not ended by CRLF, is not UTF-8 or holds no colon; or
    /// no empty line ends the header block.
    MalformedHeaderLine,
    /// The buffer holds fewer bytes after the header block than
    /// `Content-Length` declares.
    IncompleteBody,
    /// The value of `Content-Length` is no non-negative integer.
    InvalidContentLength,
}

/// What a request holds, as mathematical values.
pub struct RequestView {
    pub method: HTTPMethod,
    pub target: Seq<char>,
    pub headers: Seq<(Seq<char>, Seq<char>)>,
    pub body: Option<Seq<u8>>,
}

impl View for HTTPRequest {
    type V = RequestView;

    open spec fn view(&self) -> RequestView {
        RequestView {
            method: self.method,
            target: self.target@,
            headers: self.headers@,
            body: match self.body {
                Some(b) => Some(b@),
                None => None,
            },
        }
    }
}

/// The method that a token of the start line names.
pub open spec fn method_of(token: Seq<char>) -> Option<HTTPMethod> {
    if token == "GET"@ {
        Some(HTTPMethod::GET)
    } else if token == "POST"@ {
        Some(HTTPMethod::POST)
    } else {
        None
    }
}

/// The method and the target of a start line. The line is a method, a target
/// and a version, with exactly one space between them; target and version are
/// not empty.
pub open spec fn parse_start_line(line: Seq<char>) -> Result<(HTTPMethod, Seq<char>), ParseError> {
    match split_once(line, ' ') {
        Some((token, rest)) => match split_once(rest, ' ') {
            Some((target, version)) => if target.len() == 0 || version.len() == 0
                || split_once(version, ' ') is Some {
                Err(ParseError::MalformedStartLine)
            } else {
                match method_of(token) {
                    Some(method) => Ok((method, target)),
                    None => Err(ParseError::UnrecognizedMethod),
                }
            },
            None => Err(ParseError::MalformedStartLine),
        },
        None => Err(ParseError::MalformedStartLine),
    }
}

/// The name and the value of a header line: what stands before and after
/// its first colon, each without surrounding white space.
pub open spec fn parse_header_line(line: Seq<char>) -> Option<(Seq<char>, Seq<char>)> {
    match split_once(line, ':') {
        Some((name, value)) => Some((trim(name), trim(value))),
        None => None,
    }
}

/// Reads header lines from `rest` until the empty line, inserting each into
/// `fields`. Gives the fields and what follows the empty line.
pub open spec fn parse_header_block(rest: Seq<u8>, fields: Seq<(Seq<char>, Seq<char>)>) -> Result<
    (Seq<(Seq<char>, Seq<char>)>, Seq<u8>),
    ParseError,
>
    decreases rest.len(),
{
    let end = find_crlf(rest);
    if end + 2 > rest.len() {
        Err(ParseError::MalformedHeaderLine)
    } else if end == 0 {
        Ok((fields, rest.subrange(2, rest.len() as int)))
    } else if !valid_utf8(rest.subrange(0, end as int)) {
        Err(ParseError::MalformedHeaderLine)
    } else {
        match parse_header_line(decode_utf8(rest.subrange(0, end as int))) {
            Some((name, value)) => parse_header_block(
                rest.subrange(end + 2 as int, rest.len() as int),
                inserted(fields, name, value),
            ),
            None => Err(ParseError::MalformedHeaderLine),
        }
    }
}

/// The payload that follows the header block: as many bytes of `rest` as
/// `Content-Length` declares, and none where that header is absent.
pub open spec fn parse_body(rest: Seq<u8>, headers: Seq<(Seq<char>, Seq<char>)>) -> Result<
    Option<Seq<u8>>,
    ParseError,
> {
    match lookup(headers, "Content-Length"@) {
        None => Ok(None),
        Some(value) => match parse_decimal(value) {
            None => Err(ParseError::InvalidContentLength),
            Some(n) => if n <= rest.len() {
                Ok(Some(rest.subrange(0, n as int)))
            } else {
                Err(ParseError::IncompleteBody)
            },
        },
    }
}

/// The request that `buf` holds, or the reason why it holds none.
pub open spec fn parse_request(buf: Seq<u8>) -> Result<RequestView, ParseError> {
    let end = find_crlf(buf);
    if end + 2 > buf.len() || !valid_utf8(buf.subrange(0, end as int)) {
        Err(ParseError::MalformedStartLine)
    } else {
        match parse_start_line(decode_utf8(buf.subrange(0, end as int))) {
            Err(e) => Err(e),
            Ok((method, target)) => match parse_header_block(
                buf.subrange(end + 2 as int, buf.len() as int),
                Seq::empty(),
            ) {
                Err(e) => Err(e),
                Ok((headers, rest)) => match parse_body(rest, headers) {
                    Err(e) => Err(e),
                    Ok(body) => Ok(RequestView { method, target, headers, body }),
                },
            },
        }
    }
}

/// Reading a header block into fields with distinct names gives fields with
/// distinct names.
pub proof fn lemma_header_block_distinct(rest: Seq<u8>, fields: Seq<(Seq<char>, Seq<char>)>)
    requires
        distinct_names(fields),
    ensures
        parse_header_block(rest, fields) matches Ok((read, _)) ==> distinct_names(read),
    decreases rest.len(),
{
    let end = find_crlf(rest);
    if end + 2 <= rest.len() && end != 0 && valid_utf8(rest.subrange(0, end as int)) {
        match parse_header_line(decode_utf8(rest.subrange(0, end as int))) {
            Some((name, value)) => {
                lemma_inserted_distinct(fields, name, value);
                lemma_header_block_distinct(
                    rest.subrange(end + 2 as int, rest.len() as int),
                    inserted(fields, name, value),
                );
            },
            None => {},
        }
    }
}

/// The headers of a request that was read are a mapping: no name occurs
/// twice among them.
pub proof fn lemma_headers_distinct(buf: Seq<u8>)
    ensures
        parse_request(buf) matches Ok(request) ==> distinct_names(request.headers),
{
    let end = find_crlf(buf);
    lemma_header_block_distinct(buf.subrange(end + 2 as int, buf.len() as int), Seq::empty());
}

/// Bytes that follow a header block do not change what is read from it; they
/// are left over with the rest.
pub proof fn lemma_header_block_extended(
    rest: Seq<u8>,
    fields: Seq<(Seq<char>, Seq<char>)>,
    more: Seq<u8>,
)
    ensures
        parse_header_block(rest, fields) matches Ok((read, left)) ==> parse_header_block(
            rest + more,
            fields,
        ) == Ok::<(Seq<(Seq<char>, Seq<char>)>, Seq<u8>), ParseError>((read, left + more)),
    decreases rest.len(),
{
    let end = find_crlf(rest);
    let all = rest + more;
    if end + 2 <= rest.len() {
        lemma_find_crlf_found(rest);
        lemma_find_crlf_extended(rest, more);
        assert(all.subrange(0, end as int) =~= rest.subrange(0, end as int));
        assert(all.subrange(end + 2 as int, all.len() as int) =~= rest.subrange(
            end + 2 as int,
            rest.len() as int,
        ) + more);
        if end != 0 && valid_utf8(rest.subrange(0, end as int)) {
            match parse_header_line(decode_utf8(rest.subrange(0, end as int))) {
                Some((name, value)) => {
                    lemma_header_block_extended(
                        rest.subrange(end + 2 as int, rest.len() as int),
                        inserted(fields, name, value),
                        more,
                    );
                },
                None => {},
            }
        }
    }
}

/// Bytes that follow a request are ignored: the request that is read from a
/// buffer is read from every longer buffer that starts with it.
pub proof fn lemma_trailing_bytes_ignored(buf: Seq<u8>, more: Seq<u8>)
    ensures
        parse_request(buf) is Ok ==> parse_request(buf + more) == parse_request(buf),
{
    let end = find_crlf(buf);
    let all = buf + more;
    if parse_request(buf) is Ok {
        lemma_find_crlf_found(buf);
        lemma_find_crlf_extended(buf, more);
        assert(all.subrange(0, end as int) =~= buf.subrange(0, end as int));
        let rest = buf.subrange(end + 2 as int, buf.len() as int);
        assert(all.subrange(end + 2 as int, all.len() as int) =~= rest + more);
        lemma_header_block_extended(rest, Seq::empty(), more);
        match parse_header_block(rest, Seq::empty()) {
            Ok((headers, left)) => {
                match parse_body(left, headers) {
                    Ok(Some(body)) => {
                        assert((left + more).subrange(0, body.len() as int) =~= left.subrange(
                            0,
                            body.len() as int,
                        ));
                    },
                    _ => {},
                }
            },
            Err(_) => {},
        }
    }
}

/// Reads the method and the target from the text of a start line.
fn read_start_line(line: &str) -> (r: Result<(HTTPMethod, String), ParseError>)
    ensures
        match r {
            Ok((method, target)) => parse_start_line(line@) == Ok::<
                (HTTPMethod, Seq<char>),
                ParseError,
            >((method, target@)),
            Err(e) => parse_start_line(line@) == Err::<(HTTPMethod, Seq<char>), ParseError>(e),
        },
{
    let chars = chars_of(line);
    let n = chars.len();
    let i = find_char(&chars, 0, n, ' ');
    assert(chars@.subrange(0, n as int) =~= line@);
    if i >= n {
        return Err(ParseError::MalformedStartLine);
    }
    let j = find_char(&chars, i + 1, n, ' ');
    let ghost rest = line@.subrange(i + 1, n as int);
    if j >= n || j == i + 1 || j + 1 == n {
        return Err(ParseError::MalformedStartLine);
    }
    let k = find_char(&chars, j + 1, n, ' ');
    assert(rest.subrange(j - i, rest.len() as int) =~= chars@.subrange(j + 1, n as int));
    if k < n {
        return Err(ParseError::MalformedStartLine);
    }
    let token = line.substring_char(0, i);
    let method = if str_eq(token, "GET") {
        HTTPMethod::GET
    } else if str_eq(token, "POST") {
        HTTPMethod::POST
    } else {
        return Err(ParseError::UnrecognizedMethod);
    };
    let target = String::from_str(line.substring_char(i + 1, j));
    assert(target@ =~= rest.subrange(0, j - i - 1));
    Ok((method, target))
}

/// Reads the name and the value from the text of a header line.
fn read_header_line(line: &str) -> (r: Option<(String, String)>)
    ensures
        match r {
            Some((name, value)) => parse_header_line(line@) == Some((name@, value@)),
            None => parse_header_line(line@) is None,
        },
{
    let chars = chars_of(line);
    let n = chars.len();
    let i = find_char(&chars, 0, n, ':');
    assert(chars@.subrange(0, n as int) =~= line@);
    if i >= n {
        return None;
    }
    let (a, b) = trim_bounds(&chars, 0, i);
    let (c, d) = trim_bounds(&chars, i + 1, n);
    let name = String::from_str(line.substring_char(a, b));
    let value = String::from_str(line.substring_char(c, d));
    Some((name, value))
}

/// Reads the header block that starts at `from`. Gives the fields and the
/// index at which the payload starts.
fn read_header_block(buffer: &[u8], from: usize) -> (r: Result<(Headers, usize), ParseError>)
    requires
        from <= buffer@.len(),
    ensures
        match r {
            Ok((headers, start)) => start <= buffer@.len() && parse_header_block(
                buffer@.subrange(from as int, buffer@.len() as int),
                Seq::empty(),
            ) == Ok::<(Seq<(Seq<char>, Seq<char>)>, Seq<u8>), ParseError>(
                (headers@, buffer@.subrange(start as int, buffer@.len() as int)),
            ),
            Err(e) => parse_header_block(
                buffer@.subrange(from as int, buffer@.len() as int),
                Seq::empty(),
            ) == Err::<(Seq<(Seq<char>, Seq<char>)>, Seq<u8>), ParseError>(e),
        },
{
    let n = buffer.len();
    let mut headers = Headers::new();
    let mut pos: usize = from;
    loop
        invariant
            from <= pos <= n,
            n == buffer@.len(),
            parse_header_block(buffer@.subrange(from as int, n as int), Seq::empty())
                == parse_header_block(buffer@.subrange(pos as int, n as int), headers@),
        decreases n - pos,
    {
        let ghost rest = buffer@.subrange(pos as int, n as int);
        let end = find_line_end(buffer, pos);
        if end >= n {
            return Err(ParseError::MalformedHeaderLine);
        }
        if end == pos {
            assert(rest.subrange(2, rest.len() as int) =~= buffer@.subrange(pos + 2, n as int));
            return Ok((headers, pos + 2));
        }
        assert(rest.subrange(0, end - pos) =~= buffer@.subrange(pos as int, end as int));
        assert(rest.subrange(end - pos + 2, rest.len() as int) =~= buffer@.subrange(
            end + 2,
            n as int,
        ));
        let line = match text_of(buffer, pos, end) {
            Some(line) => line,
            None => {
                return Err(ParseError::MalformedHeaderLine);
            },
        };
        match read_header_line(line) {
            Some((name, value)) => {
                headers.insert(name, value);
            },
            None => {
                return Err(ParseError::MalformedHeaderLine);
            },
        }
        pos = end + 2;
    }
}

/// Reads the payload that starts at `from`, as `headers` declares it.
fn read_body(buffer: &[u8], from: usize, headers: &Headers) -> (r: Result<
    Option<Vec<u8>>,
    ParseError,
>)
    requires
        from <= buffer@.len(),
    ensures
        match r {
            Ok(Some(body)) => parse_body(
                buffer@.subrange(from as int, buffer@.len() as int),
                headers@,
            ) == Ok::<Option<Seq<u8>>, ParseError>(Some(body@)),
            Ok(None) => parse_body(buffer@.subrange(from as int, buffer@.len() as int), headers@)
                == Ok::<Option<Seq<u8>>, ParseError>(None),
            Err(e) => parse_body(buffer@.subrange(from as int, buffer@.len() as int), headers@)
                == Err::<Option<Seq<u8>>, ParseError>(e),
        },
{
    let value = match headers.get("Content-Length") {
        Some(value) => value,
        None => {
            return Ok(None);
        },
    };
    let digits = chars_of(value.as_str());
    let length = match read_decimal(&digits) {
        Some(length) => length,
        None => {
            return Err(ParseError::InvalidContentLength);
        },
    };
    if length > (buffer.len() - from) as u128 {
        return Err(ParseError::IncompleteBody);
    }
    let length = length as usize;
    let body = slice_to_vec(slice_subrange(buffer, from, from + length));
    assert(body@ =~= buffer@.subrange(from as int, buffer@.len() as int).subrange(
        0,
        length as int,
    ));
    Ok(Some(body))
}

impl HTTPRequest {
    /// Reads a request from the bytes that a connection delivered. Bytes
    /// after the request are ignored.
    pub fn deserialise(buffer: &[u8]) -> (r: Result<HTTPRequest, ParseError>)
        ensures
            match r {
                Ok(request) => parse_request(buffer@) == Ok::<RequestView, ParseError>(request@),
                Err(e) => parse_request(buffer@) == Err::<RequestView, ParseError>(e),
            },
    {
        let n = buffer.len();
        let end = find_line_end(buffer, 0);
        assert(buffer@.subrange(0, n as int) =~= buffer@);
        if end >= n {
            return Err(ParseError::MalformedStartLine);
        }
        let line = match text_of(buffer, 0, end) {
            Some(line) => line,
            None => {
                return Err(ParseError::MalformedStartLine);
            },
        };
        let (method, target) = match read_start_line(line) {
            Ok(parts) => parts,
            Err(e) => {
                return Err(e);
            },
        };
        let (headers, start) = match read_header_block(buffer, end + 2) {
            Ok(block) => block,
            Err(e) => {
                return Err(e);
            },
        };
        let body = match read_body(buffer, start, &headers) {
            Ok(body) => body,
            Err(e) => {
                return Err(e);
            },
        };
        Ok(HTTPRequest { method, target, headers, body })
    }
}

} // verus!
