//! The two envelopes of the relay and their wire codec.
//!
//! A [`Raven`] is the transfer envelope carried between daemon instances:
//! one text message or one file per connection. A [`SysRaven`] is the
//! control envelope of the local request/reply protocol between the
//! front-end and the daemon. Each envelope is written as one tag byte
//! followed by its length-prefixed fields, and a decoder accepts exactly
//! the complete encodings: truncated input, an unknown tag, a text field
//! that is not UTF-8, or trailing input all yield a [`DecodeError`].

use vstd::prelude::*;

verus! {

use vstd::utf8::encode_utf8;
use crate::wire::{
    DecodeError, spec_encode_bytes, spec_encode_str, spec_parse_byte, spec_parse_bytes,
    spec_parse_str, spec_parse_u16, lemma_parse_bytes_encode, lemma_parse_str_encode,
    lemma_parse_u16_encode, lemma_parse_bytes_sound, lemma_parse_str_sound,
    lemma_parse_u16_sound, read_byte, read_bytes, read_string, read_u16, write_bytes,
    write_str, write_u16,
};

/// Tag byte of a text transfer envelope.
pub const TAG_TEXT: u8 = 0;

/// Tag byte of a file transfer envelope.
pub const TAG_FILE: u8 = 1;

/// Tag byte of a send request control envelope.
pub const TAG_SEND: u8 = 0;

/// Tag byte of a success reply control envelope.
pub const TAG_OK: u8 = 1;

/// Tag byte of a failure reply control envelope.
pub const TAG_ERROR: u8 = 2;

/// The transfer envelope: the message that one daemon instance sends
/// another, either a text message or a file with its name and content.
#[derive(Debug, Clone, PartialEq)]
pub enum Raven {
    /// A text message.
    Text { text: String },
    /// A file with its name and its content as a byte stream.
    File { name: String, content: Vec<u8> },
}

/// The mathematical value of a transfer envelope.
pub enum RavenView {
    Text { text: Seq<char> },
    File { name: Seq<char>, content: Seq<u8> },
}

impl View for Raven {
    type V = RavenView;

    open spec fn view(&self) -> RavenView {
        match self {
            Raven::Text { text } => RavenView::Text { text: text@ },
            Raven::File { name, content } => RavenView::File { name: name@, content: content@ },
        }
    }
}

/// The control envelope: the local request/reply message between the
/// front-end and the daemon. A request is `Send`; the reply to it is
/// either `Okay` or `Error`.
#[derive(Debug, Clone, PartialEq)]
pub enum SysRaven {
    /// Ask the daemon to send `message` to the peer at `to:port`.
    Send { to: String, port: u16, message: String },
    /// The requested send was handed to the transport.
    Okay,
    /// The request failed; `message` says why.
    Error { message: String },
}

/// The mathematical value of a control envelope.
pub enum SysRavenView {
    Send { to: Seq<char>, port: u16, message: Seq<char> },
    Okay,
    Error { message: Seq<char> },
}

impl View for SysRaven {
    type V = SysRavenView;

    open spec fn view(&self) -> SysRavenView {
        match self {
            SysRaven::Send { to, port, message } => SysRavenView::Send {
                to: to@,
                port: *port,
                message: message@,
            },
            SysRaven::Okay => SysRavenView::Okay,
            SysRaven::Error { message } => SysRavenView::Error { message: message@ },
        }
    }
}

/// The bytes of a transfer envelope: its tag, then its fields.
pub open spec fn spec_encode_raven(v: RavenView) -> Seq<u8> {
    match v {
        RavenView::Text { text } => seq![TAG_TEXT] + spec_encode_str(text),
        RavenView::File { name, content } => seq![TAG_FILE] + spec_encode_str(name)
            + spec_encode_bytes(content),
    }
}

/// The transfer envelope that a byte sequence holds, or why it holds none.
pub open spec fn spec_decode_raven(b: Seq<u8>) -> Result<RavenView, DecodeError> {
    match spec_parse_byte(b) {
        Err(e) => Err(e),
        Ok((tag, r)) => if tag == TAG_TEXT {
            match spec_parse_str(r) {
                Err(e) => Err(e),
                Ok((text, r2)) => if r2.len() == 0 {
                    Ok(RavenView::Text { text })
                } else {
                    Err(DecodeError::TrailingBytes)
                },
            }
        } else if tag == TAG_FILE {
            match spec_parse_str(r) {
                Err(e) => Err(e),
                Ok((name, r2)) => match spec_parse_bytes(r2) {
                    Err(e) => Err(e),
                    Ok((content, r3)) => if r3.len() == 0 {
                        Ok(RavenView::File { name, content })
                    } else {
                        Err(DecodeError::TrailingBytes)
                    },
                },
            }
        } else {
            Err(DecodeError::UnknownTag)
        },
    }
}

/// The bytes of a control envelope: its tag, then its fields.
pub open spec fn spec_encode_sys_raven(v: SysRavenView) -> Seq<u8> {
    match v {
        SysRavenView::Send { to, port, message } => seq![TAG_SEND] + spec_encode_str(to)
            + vstd::bytes::spec_u16_to_le_bytes(port) + spec_encode_str(message),
        SysRavenView::Okay => seq![TAG_OK],
        SysRavenView::Error { message } => seq![TAG_ERROR] + spec_encode_str(message),
    }
}

/// The control envelope that a byte sequence holds, or why it holds none.
pub open spec fn spec_decode_sys_raven(b: Seq<u8>) -> Result<SysRavenView, DecodeError> {
    match spec_parse_byte(b) {
        Err(e) => Err(e),
        Ok((tag, r)) => if tag == TAG_SEND {
            match spec_parse_str(r) {
                Err(e) => Err(e),
                Ok((to, r2)) => match spec_parse_u16(r2) {
                    Err(e) => Err(e),
                    Ok((port, r3)) => match spec_parse_str(r3) {
                        Err(e) => Err(e),
                        Ok((message, r4)) => if r4.len() == 0 {
                            Ok(SysRavenView::Send { to, port, message })
                        } else {
                            Err(DecodeError::TrailingBytes)
                        },
                    },
                },
            }
        } else if tag == TAG_OK {
            if r.len() == 0 {
                Ok(SysRavenView::Okay)
            } else {
                Err(DecodeError::TrailingBytes)
            }
        } else if tag == TAG_ERROR {
            match spec_parse_str(r) {
                Err(e) => Err(e),
                Ok((message, r2)) => if r2.len() == 0 {
                    Ok(SysRavenView::Error { message })
                } else {
                    Err(DecodeError::TrailingBytes)
                },
            }
        } else {
            Err(DecodeError::UnknownTag)
        },
    }
}

/// Encodes a transfer envelope for the wire.
pub fn encode_raven(rv: &Raven) -> (out: Vec<u8>)
    ensures
        out@ == spec_encode_raven(rv@),
{
    let mut out: Vec<u8> = Vec::new();
    match rv {
        Raven::Text { text } => {
            out.push(TAG_TEXT);
            write_str(&mut out, text.as_str());
        },
        Raven::File { name, content } => {
            out.push(TAG_FILE);
            write_str(&mut out, name.as_str());
            write_bytes(&mut out, content.as_slice());
        },
    }
    proof {
        assert(out@ =~= spec_encode_raven(rv@));
    }
    out
}

/// Encodes a control envelope for the local socket.
pub fn encode_sys_raven(rv: &SysRaven) -> (out: Vec<u8>)
    ensures
        out@ == spec_encode_sys_raven(rv@),
{
    let mut out: Vec<u8> = Vec::new();
    match rv {
        SysRaven::Send { to, port, message } => {
            out.push(TAG_SEND);
            write_str(&mut out, to.as_str());
            write_u16(&mut out, *port);
            write_str(&mut out, message.as_str());
        },
        SysRaven::Okay => {
            out.push(TAG_OK);
        },
        SysRaven::Error { message } => {
            out.push(TAG_ERROR);
            write_str(&mut out, message.as_str());
        },
    }
    proof {
        assert(out@ =~= spec_encode_sys_raven(rv@));
    }
    out
}

/// The decoder's result seen as a mathematical value.
pub open spec fn raven_result_view(r: Result<Raven, DecodeError>) -> Result<RavenView, DecodeError> {
    match r {
        Ok(rv) => Ok(rv@),
        Err(e) => Err(e),
    }
}

/// The control decoder's result seen as a mathematical value.
pub open spec fn sys_raven_result_view(r: Result<SysRaven, DecodeError>) -> Result<
    SysRavenView,
    DecodeError,
> {
    match r {
        Ok(rv) => Ok(rv@),
        Err(e) => Err(e),
    }
}

/// Decodes a transfer envelope, accepting exactly the complete encodings,
/// per [`spec_decode_raven`].
pub fn decode_raven(b: &[u8]) -> (r: Result<Raven, DecodeError>)
    ensures
        raven_result_view(r) == spec_decode_raven(b@),
{
    proof {
        assert(b@.skip(0) =~= b@);
    }
    let (tag, p1) = match read_byte(b, 0) {
        Ok(p) => p,
        Err(e) => {
            return Err(e);
        },
    };
    if tag == TAG_TEXT {
        let (text, p2) = match read_string(b, p1) {
            Ok(p) => p,
            Err(e) => {
                return Err(e);
            },
        };
        if p2 == b.len() {
            Ok(Raven::Text { text })
        } else {
            Err(DecodeError::TrailingBytes)
        }
    } else if tag == TAG_FILE {
        let (name, p2) = match read_string(b, p1) {
            Ok(p) => p,
            Err(e) => {
                return Err(e);
            },
        };
        let (content, p3) = match read_bytes(b, p2) {
            Ok(p) => p,
            Err(e) => {
                return Err(e);
            },
        };
        if p3 == b.len() {
            Ok(Raven::File { name, content })
        } else {
            Err(DecodeError::TrailingBytes)
        }
    } else {
        Err(DecodeError::UnknownTag)
    }
}

/// Decodes a control envelope, accepting exactly the complete encodings,
/// per [`spec_decode_sys_raven`].
pub fn decode_sys_raven(b: &[u8]) -> (r: Result<SysRaven, DecodeError>)
    ensures
        sys_raven_result_view(r) == spec_decode_sys_raven(b@),
{
    proof {
        assert(b@.skip(0) =~= b@);
    }
    let (tag, p1) = match read_byte(b, 0) {
        Ok(p) => p,
        Err(e) => {
            return Err(e);
        },
    };
    if tag == TAG_SEND {
        let (to, p2) = match read_string(b, p1) {
            Ok(p) => p,
            Err(e) => {
                return Err(e);
            },
        };
        let (port, p3) = match read_u16(b, p2) {
            Ok(p) => p,
            Err(e) => {
                return Err(e);
            },
        };
        let (message, p4) = match read_string(b, p3) {
            Ok(p) => p,
            Err(e) => {
                return Err(e);
            },
        };
        if p4 == b.len() {
            Ok(SysRaven::Send { to, port, message })
        } else {
            Err(DecodeError::TrailingBytes)
        }
    } else if tag == TAG_OK {
        if p1 == b.len() {
            Ok(SysRaven::Okay)
        } else {
            Err(DecodeError::TrailingBytes)
        }
    } else if tag == TAG_ERROR {
        let (message, p2) = match read_string(b, p1) {
            Ok(p) => p,
            Err(e) => {
                return Err(e);
            },
        };
        if p2 == b.len() {
            Ok(SysRaven::Error { message })
        } else {
            Err(DecodeError::TrailingBytes)
        }
    } else {
        Err(DecodeError::UnknownTag)
    }
}

/// A transfer envelope whose length prefixes do not overflow their
/// 64-bit fields; every envelope an executable value can hold is one.
pub open spec fn wf_raven(v: RavenView) -> bool {
    match v {
        RavenView::Text { text } => encode_utf8(text).len() <= u64::MAX,
        RavenView::File { name, content } => encode_utf8(name).len() <= u64::MAX
            && content.len() <= u64::MAX,
    }
}

/// A control envelope whose length prefixes do not overflow their
/// 64-bit fields; every envelope an executable value can hold is one.
pub open spec fn wf_sys_raven(v: SysRavenView) -> bool {
    match v {
        SysRavenView::Send { to, port, message } => encode_utf8(to).len() <= u64::MAX
            && encode_utf8(message).len() <= u64::MAX,
        SysRavenView::Okay => true,
        SysRavenView::Error { message } => encode_utf8(message).len() <= u64::MAX,
    }
}

/// Law: decoding an encoded transfer envelope yields the envelope back.
pub proof fn lemma_raven_round_trip(v: RavenView)
    requires
        wf_raven(v),
    ensures
        spec_decode_raven(spec_encode_raven(v)) == Ok::<RavenView, DecodeError>(v),
{
    let b = spec_encode_raven(v);
    match v {
        RavenView::Text { text } => {
            assert(b.skip(1) =~= spec_encode_str(text) + Seq::<u8>::empty());
            lemma_parse_str_encode(text, Seq::<u8>::empty());
        },
        RavenView::File { name, content } => {
            assert(b.skip(1) =~= spec_encode_str(name) + (spec_encode_bytes(content)
                + Seq::<u8>::empty()));
            lemma_parse_str_encode(name, spec_encode_bytes(content) + Seq::<u8>::empty());
            lemma_parse_bytes_encode(content, Seq::<u8>::empty());
        },
    }
}

/// Law: decoding an encoded control envelope yields the envelope back.
pub proof fn lemma_sys_raven_round_trip(v: SysRavenView)
    requires
        wf_sys_raven(v),
    ensures
        spec_decode_sys_raven(spec_encode_sys_raven(v)) == Ok::<SysRavenView, DecodeError>(v),
{
    let b = spec_encode_sys_raven(v);
    match v {
        SysRavenView::Send { to, port, message } => {
            let tail3 = spec_encode_str(message) + Seq::<u8>::empty();
            let tail2 = vstd::bytes::spec_u16_to_le_bytes(port) + tail3;
            assert(b.skip(1) =~= spec_encode_str(to) + tail2);
            lemma_parse_str_encode(to, tail2);
            lemma_parse_u16_encode(port, tail3);
            lemma_parse_str_encode(message, Seq::<u8>::empty());
        },
        SysRavenView::Okay => {
            assert(b.skip(1) =~= Seq::<u8>::empty());
        },
        SysRavenView::Error { message } => {
            assert(b.skip(1) =~= spec_encode_str(message) + Seq::<u8>::empty());
            lemma_parse_str_encode(message, Seq::<u8>::empty());
        },
    }
}

/// Law: the transfer decoder accepts only encodings. What decodes to an
/// envelope is that envelope's own encoding, so each envelope has
/// exactly one wire form and the decoder accepts nothing else.
pub proof fn lemma_raven_decode_sound(b: Seq<u8>, v: RavenView)
    requires
        spec_decode_raven(b) == Ok::<RavenView, DecodeError>(v),
    ensures
        b == spec_encode_raven(v),
        wf_raven(v),
{
    let (tag, r) = spec_parse_byte(b)->Ok_0;
    assert(b =~= seq![tag] + r);
    match v {
        RavenView::Text { text } => {
            let (s, r2) = spec_parse_str(r)->Ok_0;
            lemma_parse_str_sound(r, s, r2);
            assert(r2 =~= Seq::<u8>::empty());
            assert(r =~= spec_encode_str(text));
            assert(b =~= spec_encode_raven(v));
        },
        RavenView::File { name, content } => {
            let (s, r2) = spec_parse_str(r)->Ok_0;
            lemma_parse_str_sound(r, s, r2);
            let (bs, r3) = spec_parse_bytes(r2)->Ok_0;
            lemma_parse_bytes_sound(r2, bs, r3);
            assert(r3 =~= Seq::<u8>::empty());
            assert(r2 =~= spec_encode_bytes(content));
            assert(b =~= spec_encode_raven(v));
        },
    }
}

/// Law: the control decoder accepts only encodings. What decodes to an
/// envelope is that envelope's own encoding, so each envelope has
/// exactly one wire form and the decoder accepts nothing else.
pub proof fn lemma_sys_raven_decode_sound(b: Seq<u8>, v: SysRavenView)
    requires
        spec_decode_sys_raven(b) == Ok::<SysRavenView, DecodeError>(v),
    ensures
        b == spec_encode_sys_raven(v),
        wf_sys_raven(v),
{
    let (tag, r) = spec_parse_byte(b)->Ok_0;
    assert(b =~= seq![tag] + r);
    match v {
        SysRavenView::Send { to, port, message } => {
            let (s1, r2) = spec_parse_str(r)->Ok_0;
            lemma_parse_str_sound(r, s1, r2);
            let (p, r3) = spec_parse_u16(r2)->Ok_0;
            lemma_parse_u16_sound(r2, p, r3);
            let (s2, r4) = spec_parse_str(r3)->Ok_0;
            lemma_parse_str_sound(r3, s2, r4);
            assert(r4 =~= Seq::<u8>::empty());
            assert(r3 =~= spec_encode_str(message));
            assert(b =~= spec_encode_sys_raven(v));
        },
        SysRavenView::Okay => {
            assert(r =~= Seq::<u8>::empty());
            assert(b =~= spec_encode_sys_raven(v));
        },
        SysRavenView::Error { message } => {
            let (s, r2) = spec_parse_str(r)->Ok_0;
            lemma_parse_str_sound(r, s, r2);
            assert(r2 =~= Seq::<u8>::empty());
            assert(r =~= spec_encode_str(message));
            assert(b =~= spec_encode_sys_raven(v));
        },
    }
}

} // verus!
