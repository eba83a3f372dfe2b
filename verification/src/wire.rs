//! Byte-level building blocks of the crate's two codecs: the wire envelopes
//! and the persisted mailbox document.
//!
//! Every value on the wire is written as a tag byte or a length-prefixed
//! field: integers little-endian, strings as their UTF-8 bytes behind a
//! 64-bit byte count. Each `spec_parse_*` function is the mathematical
//! parser for one field kind and each `spec_encode_*` its printer; the
//! `lemma_parse_*_encode` lemmas state that parsing what was printed yields
//! the original value and leaves exactly the trailing input, and the
//! `lemma_parse_*_sound` lemmas the converse: whatever a parser accepts
//! was printed, so each value has exactly one written form.

use vstd::prelude::*;

verus! {

use vstd::bytes::{
    spec_u16_to_le_bytes, spec_u16_from_le_bytes, lemma_auto_spec_u16_to_from_le_bytes,
    spec_u64_to_le_bytes, spec_u64_from_le_bytes, lemma_auto_spec_u64_to_from_le_bytes,
    u16_from_le_bytes, u16_to_le_bytes, u64_from_le_bytes, u64_to_le_bytes,
};
use vstd::utf8::{encode_utf8, decode_utf8, valid_utf8, encode_utf8_valid_utf8, encode_utf8_decode_utf8, decode_utf8_encode_utf8};
use vstd::slice::{slice_index_get, slice_subrange, slice_to_vec};

/// Why a byte sequence was rejected by a decoder.
#[derive(Debug, Clone, Copy, PartialEq, Eq, Structural)]
pub enum DecodeError {
    /// The input ended before the field it announced.
    Truncated,
    /// The leading tag byte names no known variant.
    UnknownTag,
    /// A text field is not valid UTF-8.
    InvalidText,
    /// Input remained after a complete envelope.
    TrailingBytes,
}

/// A byte-string field: a 64-bit little-endian byte count, then the bytes.
pub open spec fn spec_encode_bytes(bs: Seq<u8>) -> Seq<u8> {
    spec_u64_to_le_bytes(bs.len() as u64) + bs
}

/// A text field: the UTF-8 bytes of the string, as a byte-string field.
pub open spec fn spec_encode_str(s: Seq<char>) -> Seq<u8> {
    spec_encode_bytes(encode_utf8(s))
}

/// Reads a 64-bit little-endian integer from the front of the input.
pub open spec fn spec_parse_u64(b: Seq<u8>) -> Result<(u64, Seq<u8>), DecodeError> {
    if b.len() < 8 {
        Err(DecodeError::Truncated)
    } else {
        Ok((spec_u64_from_le_bytes(b.take(8)), b.skip(8)))
    }
}

/// Reads a 16-bit little-endian integer from the front of the input.
pub open spec fn spec_parse_u16(b: Seq<u8>) -> Result<(u16, Seq<u8>), DecodeError> {
    if b.len() < 2 {
        Err(DecodeError::Truncated)
    } else {
        Ok((spec_u16_from_le_bytes(b.take(2)), b.skip(2)))
    }
}

/// Reads one byte from the front of the input.
pub open spec fn spec_parse_byte(b: Seq<u8>) -> Result<(u8, Seq<u8>), DecodeError> {
    if b.len() < 1 {
        Err(DecodeError::Truncated)
    } else {
        Ok((b[0], b.skip(1)))
    }
}

/// Reads a byte-string field from the front of the input.
pub open spec fn spec_parse_bytes(b: Seq<u8>) -> Result<(Seq<u8>, Seq<u8>), DecodeError> {
    match spec_parse_u64(b) {
        Ok((n, r)) => if r.len() < n {
            Err(DecodeError::Truncated)
        } else {
            Ok((r.take(n as int), r.skip(n as int)))
        },
        Err(e) => Err(e),
    }
}

/// Reads a text field from the front of the input.
pub open spec fn spec_parse_str(b: Seq<u8>) -> Result<(Seq<char>, Seq<u8>), DecodeError> {
    match spec_parse_bytes(b) {
        Ok((bs, r)) => if valid_utf8(bs) {
            Ok((decode_utf8(bs), r))
        } else {
            Err(DecodeError::InvalidText)
        },
        Err(e) => Err(e),
    }
}

/// Parsing a printed 64-bit integer yields the integer and the trailing input.
pub proof fn lemma_parse_u64_encode(x: u64, rest: Seq<u8>)
    ensures
        spec_parse_u64(spec_u64_to_le_bytes(x) + rest) == Ok::<(u64, Seq<u8>), DecodeError>((x, rest)),
{
    lemma_auto_spec_u64_to_from_le_bytes();
    let b = spec_u64_to_le_bytes(x) + rest;
    assert(b.take(8) =~= spec_u64_to_le_bytes(x));
    assert(b.skip(8) =~= rest);
}

/// Parsing a printed 16-bit integer yields the integer and the trailing input.
pub proof fn lemma_parse_u16_encode(x: u16, rest: Seq<u8>)
    ensures
        spec_parse_u16(spec_u16_to_le_bytes(x) + rest) == Ok::<(u16, Seq<u8>), DecodeError>((x, rest)),
{
    lemma_auto_spec_u16_to_from_le_bytes();
    let b = spec_u16_to_le_bytes(x) + rest;
    assert(b.take(2) =~= spec_u16_to_le_bytes(x));
    assert(b.skip(2) =~= rest);
}

/// Parsing a printed byte-string field yields the bytes and the trailing input.
pub proof fn lemma_parse_bytes_encode(bs: Seq<u8>, rest: Seq<u8>)
    requires
        bs.len() <= u64::MAX,
    ensures
        spec_parse_bytes(spec_encode_bytes(bs) + rest) == Ok::<(Seq<u8>, Seq<u8>), DecodeError>((bs, rest)),
{
    assert(spec_encode_bytes(bs) + rest =~= spec_u64_to_le_bytes(bs.len() as u64) + (bs + rest));
    lemma_parse_u64_encode(bs.len() as u64, bs + rest);
    assert((bs + rest).take(bs.len() as int) =~= bs);
    assert((bs + rest).skip(bs.len() as int) =~= rest);
}

/// Parsing a printed text field yields the string and the trailing input.
pub proof fn lemma_parse_str_encode(s: Seq<char>, rest: Seq<u8>)
    requires
        encode_utf8(s).len() <= u64::MAX,
    ensures
        spec_parse_str(spec_encode_str(s) + rest) == Ok::<(Seq<char>, Seq<u8>), DecodeError>((s, rest)),
{
    lemma_parse_bytes_encode(encode_utf8(s), rest);
    encode_utf8_valid_utf8(s);
    encode_utf8_decode_utf8(s);
}

/// Whatever a 64-bit read accepts was a printed 64-bit integer: the
/// accepted input splits into the integer's bytes and the leftover.
pub proof fn lemma_parse_u64_sound(b: Seq<u8>, x: u64, r: Seq<u8>)
    requires
        spec_parse_u64(b) == Ok::<(u64, Seq<u8>), DecodeError>((x, r)),
    ensures
        b == spec_u64_to_le_bytes(x) + r,
{
    lemma_auto_spec_u64_to_from_le_bytes();
    assert(spec_u64_to_le_bytes(spec_u64_from_le_bytes(b.take(8))) == b.take(8));
    assert(b =~= b.take(8) + b.skip(8));
}

/// Whatever a 16-bit read accepts was a printed 16-bit integer.
pub proof fn lemma_parse_u16_sound(b: Seq<u8>, x: u16, r: Seq<u8>)
    requires
        spec_parse_u16(b) == Ok::<(u16, Seq<u8>), DecodeError>((x, r)),
    ensures
        b == spec_u16_to_le_bytes(x) + r,
{
    lemma_auto_spec_u16_to_from_le_bytes();
    assert(spec_u16_to_le_bytes(spec_u16_from_le_bytes(b.take(2))) == b.take(2));
    assert(b =~= b.take(2) + b.skip(2));
}

/// Whatever a byte-string read accepts was a printed byte-string field.
pub proof fn lemma_parse_bytes_sound(b: Seq<u8>, bs: Seq<u8>, r: Seq<u8>)
    requires
        spec_parse_bytes(b) == Ok::<(Seq<u8>, Seq<u8>), DecodeError>((bs, r)),
    ensures
        b == spec_encode_bytes(bs) + r,
        bs.len() <= u64::MAX,
{
    let (n, r1) = spec_parse_u64(b)->Ok_0;
    lemma_parse_u64_sound(b, n, r1);
    assert(bs.len() == n);
    assert(r1 =~= r1.take(n as int) + r1.skip(n as int));
    assert(b =~= spec_encode_bytes(bs) + r);
}

/// Whatever a text read accepts was a printed text field.
pub proof fn lemma_parse_str_sound(b: Seq<u8>, s: Seq<char>, r: Seq<u8>)
    requires
        spec_parse_str(b) == Ok::<(Seq<char>, Seq<u8>), DecodeError>((s, r)),
    ensures
        b == spec_encode_str(s) + r,
        encode_utf8(s).len() <= u64::MAX,
{
    let (bs, r1) = spec_parse_bytes(b)->Ok_0;
    lemma_parse_bytes_sound(b, bs, r1);
    decode_utf8_encode_utf8(bs);
}

/// Relies on `str::from_utf8`: it accepts exactly the valid UTF-8 byte
/// sequences, and the accepted string's UTF-8 encoding is the input itself.
#[verifier::external_body]
pub(crate) fn utf8_to_string(v: &[u8]) -> (r: Option<String>)
    ensures
        r matches Some(s) ==> encode_utf8(s@) == v@,
        valid_utf8(v@) <==> r is Some,
{
    match core::str::from_utf8(v) {
        Ok(s) => Some(s.to_owned()),
        Err(_) => None,
    }
}

/// Appends a 64-bit little-endian integer to the output.
pub(crate) fn write_u64(out: &mut Vec<u8>, x: u64)
    ensures
        final(out)@ == old(out)@ + spec_u64_to_le_bytes(x),
{
    let mut bs = u64_to_le_bytes(x);
    out.append(&mut bs);
}

/// Appends a 16-bit little-endian integer to the output.
pub(crate) fn write_u16(out: &mut Vec<u8>, x: u16)
    ensures
        final(out)@ == old(out)@ + spec_u16_to_le_bytes(x),
{
    let mut bs = u16_to_le_bytes(x);
    out.append(&mut bs);
}

/// Appends a byte-string field to the output.
pub(crate) fn write_bytes(out: &mut Vec<u8>, v: &[u8])
    ensures
        final(out)@ == old(out)@ + spec_encode_bytes(v@),
{
    write_u64(out, v.len() as u64);
    let mut bs = slice_to_vec(v);
    out.append(&mut bs);
    proof {
        assert(out@ =~= old(out)@ + spec_encode_bytes(v@));
    }
}

/// Appends a text field to the output.
pub(crate) fn write_str(out: &mut Vec<u8>, s: &str)
    ensures
        final(out)@ == old(out)@ + spec_encode_str(s@),
{
    write_bytes(out, s.as_bytes());
}

/// Reads a 64-bit little-endian integer at `pos`, per [`spec_parse_u64`].
pub(crate) fn read_u64(b: &[u8], pos: usize) -> (r: Result<(u64, usize), DecodeError>)
    requires
        pos <= b@.len(),
    ensures
        match r {
            Ok(p) => p.1 <= b@.len()
                && spec_parse_u64(b@.skip(pos as int)) == Ok::<(u64, Seq<u8>), DecodeError>((p.0, b@.skip(p.1 as int))),
            Err(e) => spec_parse_u64(b@.skip(pos as int)) == Err::<(u64, Seq<u8>), DecodeError>(e),
        },
{
    if b.len() - pos < 8 {
        Err(DecodeError::Truncated)
    } else {
        let x = u64_from_le_bytes(slice_subrange(b, pos, pos + 8));
        proof {
            assert(b@.skip(pos as int).take(8) =~= b@.subrange(pos as int, pos as int + 8));
            assert(b@.skip(pos as int).skip(8) =~= b@.skip(pos as int + 8));
        }
        Ok((x, pos + 8))
    }
}

/// Reads a 16-bit little-endian integer at `pos`, per [`spec_parse_u16`].
pub(crate) fn read_u16(b: &[u8], pos: usize) -> (r: Result<(u16, usize), DecodeError>)
    requires
        pos <= b@.len(),
    ensures
        match r {
            Ok(p) => p.1 <= b@.len()
                && spec_parse_u16(b@.skip(pos as int)) == Ok::<(u16, Seq<u8>), DecodeError>((p.0, b@.skip(p.1 as int))),
            Err(e) => spec_parse_u16(b@.skip(pos as int)) == Err::<(u16, Seq<u8>), DecodeError>(e),
        },
{
    if b.len() - pos < 2 {
        Err(DecodeError::Truncated)
    } else {
        let x = u16_from_le_bytes(slice_subrange(b, pos, pos + 2));
        proof {
            assert(b@.skip(pos as int).take(2) =~= b@.subrange(pos as int, pos as int + 2));
            assert(b@.skip(pos as int).skip(2) =~= b@.skip(pos as int + 2));
        }
        Ok((x, pos + 2))
    }
}

/// Reads one byte at `pos`, per [`spec_parse_byte`].
pub(crate) fn read_byte(b: &[u8], pos: usize) -> (r: Result<(u8, usize), DecodeError>)
    requires
        pos <= b@.len(),
    ensures
        match r {
            Ok(p) => p.1 <= b@.len()
                && spec_parse_byte(b@.skip(pos as int)) == Ok::<(u8, Seq<u8>), DecodeError>((p.0, b@.skip(p.1 as int))),
            Err(e) => spec_parse_byte(b@.skip(pos as int)) == Err::<(u8, Seq<u8>), DecodeError>(e),
        },
{
    if pos < b.len() {
        let x = *slice_index_get(b, pos);
        proof {
            assert(b@.skip(pos as int)[0] == b@[pos as int]);
            assert(b@.skip(pos as int).skip(1) =~= b@.skip(pos as int + 1));
        }
        Ok((x, pos + 1))
    } else {
        Err(DecodeError::Truncated)
    }
}

/// Reads a byte-string field at `pos`, per [`spec_parse_bytes`].
pub(crate) fn read_bytes(b: &[u8], pos: usize) -> (r: Result<(Vec<u8>, usize), DecodeError>)
    requires
        pos <= b@.len(),
    ensures
        match r {
            Ok(p) => p.1 <= b@.len()
                && spec_parse_bytes(b@.skip(pos as int)) == Ok::<(Seq<u8>, Seq<u8>), DecodeError>((p.0@, b@.skip(p.1 as int))),
            Err(e) => spec_parse_bytes(b@.skip(pos as int)) == Err::<(Seq<u8>, Seq<u8>), DecodeError>(e),
        },
{
    match read_u64(b, pos) {
        Err(e) => Err(e),
        Ok((n, mid)) => {
            if n > (b.len() - mid) as u64 {
                Err(DecodeError::Truncated)
            } else {
                let m = n as usize;
                let v = slice_to_vec(slice_subrange(b, mid, mid + m));
                proof {
                    assert(b@.skip(mid as int).take(n as int) =~= b@.subrange(mid as int, mid as int + n));
                    assert(b@.skip(mid as int).skip(n as int) =~= b@.skip(mid as int + n));
                }
                Ok((v, mid + m))
            }
        },
    }
}

/// Reads a text field at `pos`, per [`spec_parse_str`].
pub(crate) fn read_string(b: &[u8], pos: usize) -> (r: Result<(String, usize), DecodeError>)
    requires
        pos <= b@.len(),
    ensures
        match r {
            Ok(p) => p.1 <= b@.len()
                && spec_parse_str(b@.skip(pos as int)) == Ok::<(Seq<char>, Seq<u8>), DecodeError>((p.0@, b@.skip(p.1 as int))),
            Err(e) => spec_parse_str(b@.skip(pos as int)) == Err::<(Seq<char>, Seq<u8>), DecodeError>(e),
        },
{
    match read_bytes(b, pos) {
        Err(e) => Err(e),
        Ok((bs, end)) => match utf8_to_string(bs.as_slice()) {
            Some(s) => {
                proof {
                    encode_utf8_decode_utf8(s@);
                }
                Ok((s, end))
            },
            None => Err(DecodeError::InvalidText),
        },
    }
}

} // verus!
