//! Lines of a byte buffer: finding the CRLF that ends a line, reading the
//! bytes of a line as text, and writing a text as a line.

use vstd::prelude::*;
use vstd::slice::slice_subrange;
use vstd::string::{StrSliceExecFns, StringSliceAdditionalSpecFns};
use vstd::utf8::{
    char_is_scalar, char_u32_cast, decode_utf8, encode_scalar, encode_utf8,
    encode_utf8_decode_utf8, encode_utf8_valid_utf8, has_width_1_encoding, valid_utf8,
};

verus! {

/// Carriage return.
pub const CR: u8 = 13;

/// Line feed.
pub const LF: u8 = 10;

/// Tells whether a CRLF starts at index `i` of `buf`.
pub open spec fn crlf_at(buf: Seq<u8>, i: int) -> bool {
    0 <= i && i + 1 < buf.len() && buf[i] == CR && buf[i + 1] == LF
}

/// The index of the first CRLF in `buf`, or `buf.len()` where there is none.
pub open spec fn find_crlf(buf: Seq<u8>) -> nat
    decreases buf.len(),
{
    if buf.len() < 2 {
        buf.len()
    } else if buf[0] == CR && buf[1] == LF {
        0
    } else {
        1 + find_crlf(buf.drop_first())
    }
}

/// `find_crlf` is the one index before which no CRLF starts and at which one
/// does, or the length.
pub proof fn lemma_find_crlf(buf: Seq<u8>, k: int)
    requires
        0 <= k <= buf.len(),
        forall|j: int| 0 <= j < k ==> !crlf_at(buf, j),
        k < buf.len() ==> crlf_at(buf, k),
    ensures
        find_crlf(buf) == k,
    decreases buf.len(),
{
    if buf.len() >= 2 && k > 0 {
        let rest = buf.drop_first();
        assert(!crlf_at(buf, 0));
        assert forall|j: int| 0 <= j < k - 1 implies !crlf_at(rest, j) by {
            assert(!crlf_at(buf, j + 1));
        }
        lemma_find_crlf(rest, k - 1);
    }
}

/// Where `find_crlf` is not the length, a CRLF starts there, and none starts
/// before it.
pub proof fn lemma_find_crlf_found(buf: Seq<u8>)
    ensures
        find_crlf(buf) <= buf.len(),
        find_crlf(buf) < buf.len() ==> crlf_at(buf, find_crlf(buf) as int),
        forall|j: int| 0 <= j < find_crlf(buf) ==> !crlf_at(buf, j),
    decreases buf.len(),
{
    if buf.len() >= 2 && !(buf[0] == CR && buf[1] == LF) {
        let rest = buf.drop_first();
        lemma_find_crlf_found(rest);
        assert forall|j: int| 0 <= j < find_crlf(buf) implies !crlf_at(buf, j) by {
            if j > 0 {
                assert(!crlf_at(rest, j - 1));
            }
        }
    }
}

/// Bytes that follow do not move the first CRLF.
pub proof fn lemma_find_crlf_extended(buf: Seq<u8>, more: Seq<u8>)
    requires
        find_crlf(buf) < buf.len(),
    ensures
        find_crlf(buf + more) == find_crlf(buf),
{
    lemma_find_crlf_found(buf);
    let all = buf + more;
    let k = find_crlf(buf) as int;
    assert forall|j: int| 0 <= j < k implies !crlf_at(all, j) by {
        assert(!crlf_at(buf, j));
    }
    lemma_find_crlf(all, k);
}

/// The index of the first CRLF of `buffer` at or after `from`, or the length
/// of `buffer` where there is none.
pub fn find_line_end(buffer: &[u8], from: usize) -> (r: usize)
    requires
        from <= buffer@.len(),
    ensures
        from <= r <= buffer@.len(),
        r - from == find_crlf(buffer@.subrange(from as int, buffer@.len() as int)),
        r < buffer@.len() ==> r + 2 <= buffer@.len(),
{
    let n = buffer.len();
    let mut i: usize = from;
    let ghost rest = buffer@.subrange(from as int, n as int);
    while i < n
        invariant
            from <= i <= n,
            n == buffer@.len(),
            rest == buffer@.subrange(from as int, n as int),
            forall|j: int| 0 <= j < i - from ==> !crlf_at(rest, j),
        decreases n - i,
    {
        if buffer[i] == CR && i + 1 < n && buffer[i + 1] == LF {
            proof {
                lemma_find_crlf(rest, i - from);
            }
            return i;
        }
        i += 1;
    }
    proof {
        lemma_find_crlf(rest, n - from);
    }
    n
}

/// Appends `text` as UTF-8 to `out`, and the CRLF that ends the line.
pub fn write_line(out: &mut Vec<u8>, text: &str)
    ensures
        final(out)@ == old(out)@ + encode_utf8(text@) + seq![CR, LF],
{
    let mut bytes = text.as_bytes_vec();
    out.append(&mut bytes);
    out.push(CR);
    out.push(LF);
}

/// `core::str::Utf8Error`, of which nothing is looked into.
#[verifier::external_type_specification]
#[verifier::external_body]
pub struct ExUtf8Error(core::str::Utf8Error);

/// `core::str::from_utf8`. The contract claims what std documents of it: it
/// succeeds exactly where the bytes are well-formed UTF-8, and the string
/// slice that it gives is made of those bytes.
#[verifier::external_body]
fn from_utf8(bytes: &[u8]) -> (r: Result<&str, core::str::Utf8Error>)
    ensures
        r is Ok <==> valid_utf8(bytes@),
        r matches Ok(s) ==> s.spec_bytes() == bytes@,
{
    core::str::from_utf8(bytes)
}

/// The text of `buffer[from..to]`, where those bytes are well-formed UTF-8.
pub fn text_of(buffer: &[u8], from: usize, to: usize) -> (r: Option<&str>)
    requires
        from <= to <= buffer@.len(),
    ensures
        match r {
            Some(s) => valid_utf8(buffer@.subrange(from as int, to as int)) && s@ == decode_utf8(
                buffer@.subrange(from as int, to as int),
            ),
            None => !valid_utf8(buffer@.subrange(from as int, to as int)),
        },
{
    match from_utf8(slice_subrange(buffer, from, to)) {
        Ok(s) => {
            proof {
                encode_utf8_decode_utf8(s@);
            }
            Some(s)
        },
        Err(_) => None,
    }
}

/// No byte of the encoding of a character is an ASCII byte that stands for
/// another character.
proof fn lemma_scalar_lacks_byte(c: char, b: u8)
    requires
        b < 0x80,
        c as u32 != b as u32,
    ensures
        forall|i: int|
            0 <= i < encode_scalar(c as u32).len() ==> (#[trigger] encode_scalar(c as u32)[i]) != b,
{
    let u = c as u32;
    char_is_scalar(c);
    if has_width_1_encoding(u) {
        assert((u & 0x7F) as u8 != b) by (bit_vector)
            requires
                u <= 0x7F,
                u != b as u32,
                b < 0x80,
        ;
    } else {
        assert(forall|x: u8| #![auto] (0x80u8 | x) >= 0x80) by (bit_vector);
        assert(forall|x: u8| #![auto] (0xC0u8 | x) >= 0x80) by (bit_vector);
        assert(forall|x: u8| #![auto] (0xE0u8 | x) >= 0x80) by (bit_vector);
        assert(forall|x: u8| #![auto] (0xF0u8 | x) >= 0x80) by (bit_vector);
    }
}

/// An ASCII byte that stands for none of the characters of a text does not
/// occur in the encoding of that text.
pub proof fn lemma_encode_lacks_byte(s: Seq<char>, b: u8)
    requires
        b < 0x80,
        forall|i: int| 0 <= i < s.len() ==> s[i] as u32 != b as u32,
    ensures
        forall|i: int| 0 <= i < encode_utf8(s).len() ==> (#[trigger] encode_utf8(s)[i]) != b,
    decreases s.len(),
{
    if s.len() > 0 {
        let head = encode_scalar(s[0] as u32);
        let tail = encode_utf8(s.drop_first());
        lemma_scalar_lacks_byte(s[0], b);
        assert forall|i: int| 0 <= i < s.drop_first().len() implies s.drop_first()[i] as u32
            != b as u32 by {
            assert(s.drop_first()[i] == s[i + 1]);
        }
        lemma_encode_lacks_byte(s.drop_first(), b);
        assert forall|i: int| 0 <= i < encode_utf8(s).len() implies (#[trigger] encode_utf8(s)[i])
            != b by {
            if i < head.len() {
                assert(encode_utf8(s)[i] == head[i]);
            } else {
                assert(encode_utf8(s)[i] == tail[i - head.len()]);
            }
        }
    }
}

/// A text without a carriage return that is written as a line is read as
/// that line: the first CRLF of the bytes is the one that ends it, and the
/// bytes before it are the text.
pub proof fn lemma_line_written(text: Seq<char>, tail: Seq<u8>)
    requires
        forall|i: int| 0 <= i < text.len() ==> text[i] != '\r',
    ensures
        find_crlf(encode_utf8(text) + seq![CR, LF] + tail) == encode_utf8(text).len(),
        valid_utf8(encode_utf8(text)),
        decode_utf8(encode_utf8(text)) == text,
{
    let line = encode_utf8(text);
    let buf = line + seq![CR, LF] + tail;
    assert forall|i: int| 0 <= i < text.len() implies text[i] as u32 != CR as u32 by {
        char_u32_cast(text[i], text[i] as u32);
    }
    lemma_encode_lacks_byte(text, CR);
    assert forall|j: int| 0 <= j < line.len() implies !crlf_at(buf, j) by {}
    lemma_find_crlf(buf, line.len() as int);
    encode_utf8_valid_utf8(text);
    encode_utf8_decode_utf8(text);
}

} // verus!
