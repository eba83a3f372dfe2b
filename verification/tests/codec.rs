//! The wire codec seen from outside: round trips and rejections.

use rv_raven::raven::{decode_raven, decode_sys_raven, encode_raven, encode_sys_raven, Raven, SysRaven};
use rv_raven::wire::DecodeError;

#[test]
fn text_round_trip() {
    let e = Raven::Text { text: "hello".to_string() };
    let bytes = encode_raven(&e);
    assert_eq!(decode_raven(&bytes), Ok(e));
}

#[test]
fn text_round_trip_beyond_ascii() {
    let e = Raven::Text { text: "héllo wörld — ××".to_string() };
    let bytes = encode_raven(&e);
    assert_eq!(decode_raven(&bytes), Ok(e));
}

#[test]
fn file_round_trip() {
    let e = Raven::File { name: "notes.txt".to_string(), content: vec![97, 98, 99] };
    let bytes = encode_raven(&e);
    assert_eq!(decode_raven(&bytes), Ok(e));
}

#[test]
fn empty_file_round_trip() {
    let e = Raven::File { name: String::new(), content: Vec::new() };
    let bytes = encode_raven(&e);
    assert_eq!(decode_raven(&bytes), Ok(e));
}

#[test]
fn send_round_trip() {
    let e = SysRaven::Send { to: "192.168.0.7".to_string(), port: 12345, message: "hi".to_string() };
    let bytes = encode_sys_raven(&e);
    assert_eq!(decode_sys_raven(&bytes), Ok(e));
}

#[test]
fn okay_round_trip() {
    let bytes = encode_sys_raven(&SysRaven::Okay);
    assert_eq!(decode_sys_raven(&bytes), Ok(SysRaven::Okay));
}

#[test]
fn error_round_trip() {
    let e = SysRaven::Error { message: "no route".to_string() };
    let bytes = encode_sys_raven(&e);
    assert_eq!(decode_sys_raven(&bytes), Ok(e));
}

#[test]
fn empty_input_is_truncated() {
    assert_eq!(decode_raven(&[]), Err(DecodeError::Truncated));
    assert_eq!(decode_sys_raven(&[]), Err(DecodeError::Truncated));
}

#[test]
fn unknown_tag_is_rejected() {
    assert_eq!(decode_raven(&[9]), Err(DecodeError::UnknownTag));
    assert_eq!(decode_sys_raven(&[9]), Err(DecodeError::UnknownTag));
}

#[test]
fn truncated_length_is_rejected() {
    // A text tag followed by half a length prefix.
    assert_eq!(decode_raven(&[0, 5, 0, 0]), Err(DecodeError::Truncated));
}

#[test]
fn truncated_payload_is_rejected() {
    // A text tag announcing five bytes but carrying two.
    let bytes = [0u8, 5, 0, 0, 0, 0, 0, 0, 0, 104, 105];
    assert_eq!(decode_raven(&bytes), Err(DecodeError::Truncated));
}

#[test]
fn trailing_bytes_are_rejected() {
    let mut bytes = encode_raven(&Raven::Text { text: "hi".to_string() });
    bytes.push(0);
    assert_eq!(decode_raven(&bytes), Err(DecodeError::TrailingBytes));
    let mut bytes = encode_sys_raven(&SysRaven::Okay);
    bytes.push(1);
    assert_eq!(decode_sys_raven(&bytes), Err(DecodeError::TrailingBytes));
}

#[test]
fn invalid_utf8_text_is_rejected() {
    // A text tag announcing one byte that is no UTF-8 sequence.
    let bytes = [0u8, 1, 0, 0, 0, 0, 0, 0, 0, 0xff];
    assert_eq!(decode_raven(&bytes), Err(DecodeError::InvalidText));
}
