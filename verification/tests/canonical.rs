use email_auth::canonicalization::{
    canonicalize_body, canonicalize_body_relaxed, canonicalize_body_simple, canonicalize_header,
    canonicalize_header_relaxed, canonicalize_header_simple, Type,
};
use email_auth::message::RawMessage;

#[test]
fn simple_header_is_byte_for_byte() {
    assert_eq!(
        canonicalize_header_simple(b"Subject", b" Hello\r\n  World \r\n"),
        b"Subject: Hello\r\n  World \r\n".to_vec()
    );
    assert_eq!(canonicalize_header_simple(b"B ", b" Y\t\r\n\tZ  \r\n"), b"B : Y\t\r\n\tZ  \r\n".to_vec());
}

#[test]
fn relaxed_header_unfolds_and_reduces() {
    assert_eq!(
        canonicalize_header_relaxed(b"SUBJect ", b" Hello\r\n  World \r\n"),
        b"subject:Hello World\r\n".to_vec()
    );
    assert_eq!(canonicalize_header_relaxed(b"A", b" X\r\n"), b"a:X\r\n".to_vec());
    assert_eq!(canonicalize_header_relaxed(b"B ", b" Y\t\r\n\tZ  \r\n"), b"b:Y Z\r\n".to_vec());
    assert_eq!(canonicalize_header_relaxed(b"X-Empty", b"\r\n"), b"x-empty:\r\n".to_vec());
    assert_eq!(canonicalize_header_relaxed(b"X", b" a\n\tb\n"), b"x:a b\r\n".to_vec());
    assert_eq!(canonicalize_header_relaxed(b"X", b" a\rb \r\r\n"), b"x:a\rb \r\r\n".to_vec());
}

#[test]
fn simple_body_drops_empty_lines_at_the_end() {
    assert_eq!(canonicalize_body_simple(b""), b"\r\n".to_vec());
    assert_eq!(canonicalize_body_simple(b"\r\n"), b"\r\n".to_vec());
    assert_eq!(canonicalize_body_simple(b"\r\n\r\n\r\n"), b"\r\n".to_vec());
    assert_eq!(canonicalize_body_simple(b"abc"), b"abc\r\n".to_vec());
    assert_eq!(canonicalize_body_simple(b"abc\r\n"), b"abc\r\n".to_vec());
    assert_eq!(
        canonicalize_body_simple(b" C \r\nD \t E\r\n\r\n\r\n"),
        b" C \r\nD \t E\r\n".to_vec()
    );
    assert_eq!(canonicalize_body_simple(b"a\r\n\r\nb\r\n\r\n"), b"a\r\n\r\nb\r\n".to_vec());
}

#[test]
fn relaxed_body_reduces_whitespace_in_lines() {
    assert_eq!(canonicalize_body_relaxed(b""), b"".to_vec());
    assert_eq!(canonicalize_body_relaxed(b"\r\n"), b"".to_vec());
    assert_eq!(canonicalize_body_relaxed(b"\r\n\r\n"), b"".to_vec());
    assert_eq!(canonicalize_body_relaxed(b" \t \r\n"), b"".to_vec());
    assert_eq!(canonicalize_body_relaxed(b" C \r\nD \t E\r\n\r\n\r\n"), b" C\r\nD E\r\n".to_vec());
    assert_eq!(canonicalize_body_relaxed(b"abc"), b"abc\r\n".to_vec());
    assert_eq!(canonicalize_body_relaxed(b"abc  "), b"abc\r\n".to_vec());
    assert_eq!(canonicalize_body_relaxed(b"a\r\n \r\nb"), b"a\r\n\r\nb\r\n".to_vec());
    assert_eq!(canonicalize_body_relaxed(b"a \r b\r\n"), b"a \r b\r\n".to_vec());
}

#[test]
fn the_type_chooses_the_algorithm() {
    assert_eq!(canonicalize_header(Type::Simple, b"A", b" X \r\n"), b"A: X \r\n".to_vec());
    assert_eq!(canonicalize_header(Type::Relaxed, b"A", b" X \r\n"), b"a:X\r\n".to_vec());
    assert_eq!(canonicalize_body(Type::Simple, b"x \r\n\r\n"), b"x \r\n".to_vec());
    assert_eq!(canonicalize_body(Type::Relaxed, b"x \r\n\r\n"), b"x\r\n".to_vec());
}

#[test]
fn canonical_bodies_are_fixed_points() {
    let bodies: [&[u8]; 6] =
        [b"", b"\r\n", b" C \r\nD \t E\r\n\r\n\r\n", b"abc  ", b"a \r\n\t\r\n b\r\n\r\n", b"\r\r\n"];
    for ty in [Type::Simple, Type::Relaxed] {
        for body in bodies {
            let once = canonicalize_body(ty, body);
            let twice = canonicalize_body(ty, &once);
            assert_eq!(once, twice);
        }
    }
}

#[test]
fn canonical_headers_are_fixed_points() {
    let headers: [(&[u8], &[u8]); 4] = [
        (b"Subject", b" Hello\r\n  World \r\n"),
        (b"B ", b" Y\t\r\n\tZ  \r\n"),
        (b"X-Empty", b"\r\n"),
        (b"From", b" a@x.com\r\n"),
    ];
    for ty in [Type::Simple, Type::Relaxed] {
        for (name, value) in headers {
            let once = canonicalize_header(ty, name, value);
            let read = RawMessage::parse(&once);
            assert_eq!(read.headers().len(), 1);
            let again = &read.headers()[0];
            let twice = canonicalize_header(ty, again.name(), again.value());
            assert_eq!(once, twice);
        }
    }
}
