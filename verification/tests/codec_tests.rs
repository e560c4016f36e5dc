//! The codec observed on concrete payloads: exact wire text, round trips,
//! and the malformed inputs it must refuse.

use jobq::codec::{CodecError, Email, JsonCodec};

fn email(subject: &str, to: &str, text: &str) -> Email {
    Email { subject: subject.to_string(), to: to.to_string(), text: text.to_string() }
}

#[test]
fn encode_exact_wire_text() {
    let e = email("Test Subject", "example@sqlite", "Some Text");
    let s = JsonCodec::encode(&e);
    assert_eq!(s, "{\"subject\":\"Test Subject\",\"to\":\"example@sqlite\",\"text\":\"Some Text\"}");
}

#[test]
fn round_trip_plain() {
    let e = email("Test Subject", "example@sqlite", "Some Text");
    let s = JsonCodec::encode(&e);
    let d = JsonCodec::decode(s.as_str()).expect("decode failed");
    assert_eq!(d.subject, e.subject);
    assert_eq!(d.to, e.to);
    assert_eq!(d.text, e.text);
}

#[test]
fn round_trip_with_escapes() {
    let e = email("a \"quoted\" word", "back\\slash@host", "both \\ and \" here");
    let s = JsonCodec::encode(&e);
    let d = JsonCodec::decode(s.as_str()).expect("decode failed");
    assert_eq!(d.subject, e.subject);
    assert_eq!(d.to, e.to);
    assert_eq!(d.text, e.text);
}

#[test]
fn round_trip_empty_fields() {
    let e = email("", "", "");
    let s = JsonCodec::encode(&e);
    assert_eq!(s, "{\"subject\":\"\",\"to\":\"\",\"text\":\"\"}");
    let d = JsonCodec::decode(s.as_str()).expect("decode failed");
    assert_eq!(d.subject, "");
    assert_eq!(d.to, "");
    assert_eq!(d.text, "");
}

#[test]
fn decode_refuses_malformed() {
    assert_eq!(JsonCodec::decode(""), Err(CodecError::Malformed));
    assert_eq!(JsonCodec::decode("{}"), Err(CodecError::Malformed));
    assert_eq!(JsonCodec::decode("{\"subject\":\"a\""), Err(CodecError::Malformed));
    assert_eq!(
        JsonCodec::decode("{\"subject\":\"a\",\"to\":\"b\",\"text\":\"c\""),
        Err(CodecError::Malformed)
    );
    // Unknown escape inside a field.
    assert_eq!(
        JsonCodec::decode("{\"subject\":\"a\\q\",\"to\":\"b\",\"text\":\"c\"}"),
        Err(CodecError::Malformed)
    );
    // Trailing bytes after the closing brace.
    assert_eq!(
        JsonCodec::decode("{\"subject\":\"a\",\"to\":\"b\",\"text\":\"c\"}x"),
        Err(CodecError::Malformed)
    );
}

#[test]
fn decode_accepts_exactly_the_frame() {
    let d = JsonCodec::decode("{\"subject\":\"s\",\"to\":\"t\",\"text\":\"x\"}")
        .expect("decode failed");
    assert_eq!(d.subject, "s");
    assert_eq!(d.to, "t");
    assert_eq!(d.text, "x");
}
