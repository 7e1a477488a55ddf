//! Framing laws: what is written for a message is what a reader finds in it.
//! A request that a client writes is parsed back as itself, and a response
//! that the serialiser writes states the length of exactly the payload that
//! follows its head.

use crate::decimal::{decimal_digits, lemma_parse_decimal_digits, parse_decimal};
use crate::http_compression::compressed;
use crate::http_headers::{
    distinct_names, field_block, field_lines, field_text, inserted, lemma_lookup_inserted,
    lemma_lookup_inserted_other, lookup, names,
};
use crate::http_request::{
    parse_body, parse_header_block, parse_header_line, parse_request, parse_start_line,
    HTTPMethod, ParseError, RequestView,
};
use crate::http_response::{
    content_length_field, emitted_fields, framed, names_content_length, payload_of,
    requested_encoding, serialised, status_text, without_content_length, ResponseView,
};
use crate::lines::{find_crlf, lemma_find_crlf, lemma_line_written, CR, LF};
use crate::text::{is_whitespace, lemma_position, trim_start};
use vstd::prelude::*;
use vstd::utf8::encode_utf8;

verus! {

/// Tells whether `c` is a control character.
pub open spec fn is_control(c: char) -> bool {
    let u = c as u32;
    u < 0x20 || 0x7F <= u <= 0x9F
}

/// Tells whether `s` holds no control character.
pub open spec fn no_controls(s: Seq<char>) -> bool {
    forall|i: int| 0 <= i < s.len() ==> !is_control(#[trigger] s[i])
}

/// Tells whether `c` does not occur in `s`.
pub open spec fn lacks(s: Seq<char>, c: char) -> bool {
    forall|i: int| 0 <= i < s.len() ==> (#[trigger] s[i]) != c
}

/// Tells whether `s` neither starts nor ends with white space.
pub open spec fn is_trimmed(s: Seq<char>) -> bool {
    s.len() > 0 ==> !is_whitespace(s[0]) && !is_whitespace(s.last())
}

/// Tells whether a header field can be written on a line and read back: name
/// and value hold no control character and are not surrounded by white
/// space, and the name holds no colon.
pub open spec fn writable_field(field: (Seq<char>, Seq<char>)) -> bool {
    &&& no_controls(field.0)
    &&& lacks(field.0, ':')
    &&& is_trimmed(field.0)
    &&& no_controls(field.1)
    &&& is_trimmed(field.1)
}

/// Tells whether every one of `fields` is writable.
pub open spec fn writable_fields(fields: Seq<(Seq<char>, Seq<char>)>) -> bool {
    forall|i: int| 0 <= i < fields.len() ==> writable_field(#[trigger] fields[i])
}

/// Tells whether a text can stand as one token of a start line: it is not
/// empty and holds neither a space nor a control character.
pub open spec fn writable_token(s: Seq<char>) -> bool {
    &&& s.len() > 0
    &&& no_controls(s)
    &&& lacks(s, ' ')
}

/// Tells whether a request is one that a conforming client sends: the target
/// is a writable token, every header field is writable, no header name occurs
/// twice, and the request has a payload exactly where `Content-Length` states
/// its length.
pub open spec fn conforming(request: RequestView) -> bool {
    &&& writable_token(request.target)
    &&& writable_fields(request.headers)
    &&& distinct_names(request.headers)
    &&& match request.body {
        Some(body) => match lookup(request.headers, "Content-Length"@) {
            Some(value) => parse_decimal(value) == Some(body.len()),
            None => false,
        },
        None => lookup(request.headers, "Content-Length"@) is None,
    }
}

/// The token that names a method.
pub open spec fn method_name(method: HTTPMethod) -> Seq<char> {
    match method {
        HTTPMethod::GET => "GET"@,
        HTTPMethod::POST => "POST"@,
    }
}

/// The text of the start line of a request: method, target and version.
pub open spec fn start_text(method: HTTPMethod, target: Seq<char>, version: Seq<char>) -> Seq<
    char,
> {
    method_name(method) + " "@ + target + " "@ + version
}

/// The bytes that a client writes for `request` under the protocol version
/// `version`: the start line, the header block and the payload.
pub open spec fn written(request: RequestView, version: Seq<char>) -> Seq<u8> {
    encode_utf8(start_text(request.method, request.target, version)) + seq![CR, LF]
        + field_block(request.headers) + match request.body {
        Some(body) => body,
        None => Seq::empty(),
    }
}

/// What a reader takes for the payload of a message: it passes over the
/// first line, reads the header block, and takes as many of the bytes that
/// follow as `Content-Length` states.
pub open spec fn payload_read(message: Seq<u8>) -> Result<Option<Seq<u8>>, ParseError> {
    let end = find_crlf(message);
    if end + 2 > message.len() {
        Err(ParseError::MalformedStartLine)
    } else {
        match parse_header_block(
            message.subrange(end + 2 as int, message.len() as int),
            Seq::empty(),
        ) {
            Ok((fields, rest)) => parse_body(rest, fields),
            Err(e) => Err(e),
        }
    }
}

/// The length that the head of a message states: the number that the value
/// of its `Content-Length` header denotes.
pub open spec fn length_stated(message: Seq<u8>) -> Option<nat> {
    let end = find_crlf(message);
    if end + 2 > message.len() {
        None
    } else {
        match parse_header_block(
            message.subrange(end + 2 as int, message.len() as int),
            Seq::empty(),
        ) {
            Ok((fields, _)) => match lookup(fields, "Content-Length"@) {
                Some(value) => parse_decimal(value),
                None => None,
            },
            Err(_) => None,
        }
    }
}

/// `fields` after each of `more` has been inserted, in order.
pub open spec fn inserted_all(
    fields: Seq<(Seq<char>, Seq<char>)>,
    more: Seq<(Seq<char>, Seq<char>)>,
) -> Seq<(Seq<char>, Seq<char>)>
    decreases more.len(),
{
    if more.len() == 0 {
        fields
    } else {
        inserted_all(inserted(fields, more[0].0, more[0].1), more.drop_first())
    }
}

/// Fields with names that are all new are inserted at the end, in order.
proof fn lemma_inserted_all_distinct(
    fields: Seq<(Seq<char>, Seq<char>)>,
    more: Seq<(Seq<char>, Seq<char>)>,
)
    requires
        distinct_names(fields + more),
    ensures
        inserted_all(fields, more) == fields + more,
    decreases more.len(),
{
    if more.len() > 0 {
        let all = fields + more;
        let first = more[0];
        assert(all[fields.len() as int] == first);
        assert forall|j: int| 0 <= j < fields.len() implies names(fields)[j] != first.0 by {
            assert(all[j] == fields[j]);
        }
        lemma_position(names(fields), first.0, fields.len() as int);
        let grown = inserted(fields, first.0, first.1);
        assert(grown + more.drop_first() =~= all);
        lemma_inserted_all_distinct(grown, more.drop_first());
    }
}

/// The field that is inserted last is inserted into what the others gave.
proof fn lemma_inserted_all_push(
    fields: Seq<(Seq<char>, Seq<char>)>,
    more: Seq<(Seq<char>, Seq<char>)>,
    last: (Seq<char>, Seq<char>),
)
    ensures
        inserted_all(fields, more.push(last)) == inserted(
            inserted_all(fields, more),
            last.0,
            last.1,
        ),
    decreases more.len(),
{
    let all = more.push(last);
    if more.len() == 0 {
        let grown = inserted(fields, last.0, last.1);
        assert(all.drop_first() =~= more);
        assert(inserted_all(grown, more) == grown);
    } else {
        let grown = inserted(fields, more[0].0, more[0].1);
        assert(all.drop_first() =~= more.drop_first().push(last));
        lemma_inserted_all_push(grown, more.drop_first(), last);
    }
}

/// The lines of fields start with the line of the first field.
proof fn lemma_field_lines_first(fields: Seq<(Seq<char>, Seq<char>)>)
    requires
        fields.len() > 0,
    ensures
        field_lines(fields) == encode_utf8(field_text(fields[0])) + seq![CR, LF] + field_lines(
            fields.drop_first(),
        ),
    decreases fields.len(),
{
    if fields.len() == 1 {
        assert(fields.drop_last() =~= Seq::empty());
        assert(fields.drop_first() =~= Seq::empty());
    } else {
        let init = fields.drop_last();
        lemma_field_lines_first(init);
        assert(init.drop_first() =~= fields.drop_first().drop_last());
    }
}

/// The start line that is written for a method, a target and a version is
/// read back as that method and that target.
proof fn lemma_parse_start_text(method: HTTPMethod, target: Seq<char>, version: Seq<char>)
    requires
        writable_token(target),
        writable_token(version),
    ensures
        parse_start_line(start_text(method, target, version)) == Ok::<
            (HTTPMethod, Seq<char>),
            ParseError,
        >((method, target)),
{
    reveal_strlit("GET");
    reveal_strlit("POST");
    reveal_strlit(" ");
    let name = method_name(method);
    let line = start_text(method, target, version);
    let i = name.len() as int;
    assert forall|k: int| 0 <= k < i implies line[k] != ' ' by {}
    lemma_position(line, ' ', i);
    let rest = line.subrange(i + 1, line.len() as int);
    assert(line.subrange(0, i) =~= name);
    let j = target.len() as int;
    assert forall|k: int| 0 <= k < j implies rest[k] != ' ' by {}
    lemma_position(rest, ' ', j);
    assert(rest.subrange(0, j) =~= target);
    assert(rest.subrange(j + 1, rest.len() as int) =~= version);
    lemma_position(version, ' ', version.len() as int);
}

/// The line that is written for a writable header field is read back as that
/// field.
proof fn lemma_parse_field_text(field: (Seq<char>, Seq<char>))
    requires
        writable_field(field),
    ensures
        parse_header_line(field_text(field)) == Some(field),
{
    reveal_strlit(": ");
    let line = field_text(field);
    let i = field.0.len() as int;
    assert forall|j: int| 0 <= j < i implies line[j] != ':' by {}
    lemma_position(line, ':', i);
    let after = line.subrange(i + 1, line.len() as int);
    assert(after.drop_first() =~= field.1);
    assert(trim_start(after) == trim_start(field.1));
}

/// The text of the line of a writable field holds no carriage return.
proof fn lemma_field_text_no_cr(field: (Seq<char>, Seq<char>))
    requires
        writable_field(field),
    ensures
        lacks(field_text(field), '\r'),
        field_text(field).len() >= 2,
{
    reveal_strlit(": ");
    let text = field_text(field);
    assert forall|i: int| 0 <= i < text.len() implies (#[trigger] text[i]) != '\r' by {}
}

/// The header block that is written for writable fields is read back as those
/// fields, inserted in order; what follows the block is left over.
pub proof fn lemma_parse_field_block(
    fields: Seq<(Seq<char>, Seq<char>)>,
    before: Seq<(Seq<char>, Seq<char>)>,
    tail: Seq<u8>,
)
    requires
        writable_fields(fields),
    ensures
        parse_header_block(field_block(fields) + tail, before) == Ok::<
            (Seq<(Seq<char>, Seq<char>)>, Seq<u8>),
            ParseError,
        >((inserted_all(before, fields), tail)),
    decreases fields.len(),
{
    let buf = field_block(fields) + tail;
    if fields.len() == 0 {
        lemma_find_crlf(buf, 0);
        assert(buf.subrange(2, buf.len() as int) =~= tail);
    } else {
        let field = fields[0];
        let text = field_text(field);
        let line = encode_utf8(text);
        let more = field_block(fields.drop_first()) + tail;
        lemma_field_text_no_cr(field);
        lemma_field_lines_first(fields);
        lemma_line_written(text, more);
        assert(buf =~= line + seq![CR, LF] + more);
        let end = line.len() as int;
        assert(buf.subrange(0, end) =~= line);
        assert(buf.subrange(end + 2, buf.len() as int) =~= more);
        lemma_parse_field_text(field);
        assert forall|i: int| 0 <= i < fields.drop_first().len() implies writable_field(
            #[trigger] fields.drop_first()[i],
        ) by {}
        lemma_parse_field_block(fields.drop_first(), inserted(before, field.0, field.1), tail);
    }
}

/// Round trip: the bytes that a conforming client writes for a request, under
/// any protocol version, are read back as that request, with the same method,
/// target, headers and payload.
pub proof fn lemma_parse_written(request: RequestView, version: Seq<char>)
    requires
        conforming(request),
        writable_token(version),
    ensures
        parse_request(written(request, version)) == Ok::<RequestView, ParseError>(request),
{
    reveal_strlit("GET");
    reveal_strlit("POST");
    reveal_strlit(" ");
    let text = start_text(request.method, request.target, version);
    let line = encode_utf8(text);
    let payload = match request.body {
        Some(body) => body,
        None => Seq::empty(),
    };
    let tail = field_block(request.headers) + payload;
    let buf = written(request, version);
    assert forall|i: int| 0 <= i < text.len() implies text[i] != '\r' by {}
    lemma_line_written(text, tail);
    assert(buf =~= line + seq![CR, LF] + tail);
    let end = line.len() as int;
    assert(buf.subrange(0, end) =~= line);
    assert(buf.subrange(end + 2, buf.len() as int) =~= tail);
    lemma_parse_start_text(request.method, request.target, version);
    lemma_parse_field_block(request.headers, Seq::empty(), payload);
    lemma_inserted_all_distinct(Seq::empty(), request.headers);
    assert(payload.subrange(0, payload.len() as int) =~= payload);
}

/// The fields that are left without those named `Content-Length` are among
/// the fields, and none of them has exactly that name.
proof fn lemma_without_content_length(fields: Seq<(Seq<char>, Seq<char>)>)
    requires
        writable_fields(fields),
    ensures
        writable_fields(without_content_length(fields)),
        lookup(inserted_all(Seq::empty(), without_content_length(fields)), "Content-Length"@)
            is None,
    decreases fields.len(),
{
    let kept = without_content_length(fields);
    if fields.len() > 0 {
        let init = fields.drop_last();
        assert forall|i: int| 0 <= i < init.len() implies writable_field(#[trigger] init[i]) by {}
        lemma_without_content_length(init);
        let before = without_content_length(init);
        if !names_content_length(fields.last().0) {
            assert forall|i: int| 0 <= i < kept.len() implies writable_field(
                #[trigger] kept[i],
            ) by {}
            lemma_inserted_all_push(Seq::empty(), before, fields.last());
            lemma_lookup_inserted_other(
                inserted_all(Seq::empty(), before),
                fields.last().0,
                fields.last().1,
                "Content-Length"@,
            );
        }
    }
}

/// The field that states a length is writable.
proof fn lemma_content_length_field_writable(payload: Seq<u8>)
    ensures
        writable_field(content_length_field(payload)),
{
    reveal_strlit("Content-Length");
    let field = content_length_field(payload);
    lemma_parse_decimal_digits(payload.len());
    assert forall|i: int| 0 <= i < field.1.len() implies !is_control(#[trigger] field.1[i])
        && !is_whitespace(field.1[i]) by {}
}

/// What a reader finds in a framed response whose reason holds no carriage
/// return and whose headers are writable: the payload that it was framed
/// around, and in the head the length of that payload.
pub proof fn lemma_framed_payload(response: ResponseView, payload: Option<Seq<u8>>)
    requires
        lacks(response.reason, '\r'),
        response.headers matches Some(fields) ==> writable_fields(fields),
    ensures
        payload_read(framed(response, payload)) == Ok::<Option<Seq<u8>>, ParseError>(payload),
        length_stated(framed(response, payload)) == match payload {
            Some(p) => Some(p.len()),
            None => None,
        },
{
    reveal_strlit("HTTP/1.1 ");
    reveal_strlit(" ");
    let text = status_text(response.status, response.reason);
    let line = encode_utf8(text);
    let fields = emitted_fields(response.headers, payload);
    let own = match response.headers {
        Some(fields) => without_content_length(fields),
        None => Seq::empty(),
    };
    let body = match payload {
        Some(p) => p,
        None => Seq::empty(),
    };
    let tail = field_block(fields) + body;
    let message = framed(response, payload);
    lemma_parse_decimal_digits(response.status as nat);
    assert forall|i: int| 0 <= i < text.len() implies text[i] != '\r' by {}
    lemma_line_written(text, tail);
    assert(message =~= line + seq![CR, LF] + tail);
    let end = line.len() as int;
    assert(message.subrange(end + 2, message.len() as int) =~= tail);
    match response.headers {
        Some(given) => {
            lemma_without_content_length(given);
        },
        None => {},
    }
    match payload {
        Some(p) => {
            let field = content_length_field(p);
            lemma_content_length_field_writable(p);
            assert forall|i: int| 0 <= i < fields.len() implies writable_field(
                #[trigger] fields[i],
            ) by {}
            lemma_parse_field_block(fields, Seq::empty(), body);
            lemma_inserted_all_push(Seq::empty(), own, field);
            lemma_lookup_inserted(inserted_all(Seq::empty(), own), field.0, field.1);
            lemma_parse_decimal_digits(p.len());
            assert(p.subrange(0, p.len() as int) =~= p);
        },
        None => {
            lemma_parse_field_block(fields, Seq::empty(), body);
        },
    }
}

/// Length integrity: a serialised response with a body ends in the line
/// `Content-Length`, the empty line and the payload, and the length on that
/// line is the length of the payload. The payload is the body compressed
/// under the encoding that the response asks for, or the body as it is where
/// no encoding is asked for or the codec fails.
pub proof fn lemma_length_integrity(response: ResponseView)
    requires
        response.body is Some,
    ensures
        ({
            let body = response.body->0;
            let payload = payload_of(response)->0;
            let own = match response.headers {
                Some(fields) => without_content_length(fields),
                None => Seq::empty(),
            };
            &&& serialised(response) == encode_utf8(
                status_text(response.status, response.reason),
            ) + seq![CR, LF] + field_lines(own) + encode_utf8(
                field_text(("Content-Length"@, decimal_digits(payload.len()))),
            ) + seq![CR, LF] + seq![CR, LF] + payload
            &&& payload.len() == match requested_encoding(response.headers) {
                Some(encoding) => match compressed(encoding, body) {
                    Some(bytes) => bytes.len(),
                    None => body.len(),
                },
                None => body.len(),
            }
        }),
{
    let payload = payload_of(response)->0;
    let own = match response.headers {
        Some(fields) => without_content_length(fields),
        None => Seq::empty(),
    };
    let all = emitted_fields(response.headers, Some(payload));
    assert(all.drop_last() =~= own);
    assert(serialised(response) =~= encode_utf8(status_text(response.status, response.reason))
        + seq![CR, LF] + field_lines(own) + encode_utf8(
        field_text(("Content-Length"@, decimal_digits(payload.len()))),
    ) + seq![CR, LF] + seq![CR, LF] + payload);
}

/// A reader of a serialised response whose reason holds no carriage return
/// and whose headers are writable finds the payload of the response, and in
/// the head the length of that payload.
pub proof fn lemma_serialised_payload(response: ResponseView)
    requires
        lacks(response.reason, '\r'),
        response.headers matches Some(fields) ==> writable_fields(fields),
    ensures
        payload_read(serialised(response)) == Ok::<Option<Seq<u8>>, ParseError>(
            payload_of(response),
        ),
        length_stated(serialised(response)) == match payload_of(response) {
            Some(p) => Some(p.len()),
            None => None,
        },
{
    lemma_framed_payload(response, payload_of(response));
}

} // verus!
