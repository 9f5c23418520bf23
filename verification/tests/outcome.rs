use email_auth::canonicalization::Type;
use email_auth::errors::{DKIMError, Tag};
use email_auth::result::DKIMResult;

#[test]
fn pass_holds_types_and_no_error() {
    let r = DKIMResult::pass(Type::Relaxed, Type::Simple);
    assert_eq!(r.summary(), "pass");
    assert_eq!(r.error(), None);
    assert_eq!(r.header_canonicalization_type(), Some(Type::Relaxed));
    assert_eq!(r.body_canonicalization_type(), Some(Type::Simple));
    assert_eq!(r.with_detail(), "pass");
}

#[test]
fn neutral_holds_nothing() {
    let r = DKIMResult::neutral();
    assert_eq!(r.summary(), "neutral");
    assert_eq!(r.error(), None);
    assert_eq!(r.header_canonicalization_type(), None);
    assert_eq!(r.body_canonicalization_type(), None);
    assert_eq!(r.with_detail(), "neutral");
}

#[test]
fn fail_holds_the_reason() {
    let r = DKIMResult::fail(DKIMError::BodyHashMismatch);
    assert_eq!(r.summary(), "fail");
    assert_eq!(r.error(), Some(DKIMError::BodyHashMismatch));
    assert_eq!(r.header_canonicalization_type(), None);
    assert_eq!(r.body_canonicalization_type(), None);
    assert_eq!(r.with_detail(), "fail (body hash mismatch)");
}

#[test]
fn detail_names_the_offending_tag() {
    let r = DKIMResult::fail(DKIMError::SignatureSyntaxError(Tag::BodyHash));
    assert_eq!(r.with_detail(), "fail (signature syntax error: bh)");
    let r = DKIMResult::fail(DKIMError::SignatureSyntaxError(Tag::List));
    assert_eq!(r.with_detail(), "fail (signature syntax error: tag list)");
}

#[test]
fn every_error_has_its_text() {
    let all = [
        (DKIMError::SignatureSyntaxError(Tag::Version), "signature syntax error: v"),
        (DKIMError::UnsupportedAlgorithm, "unsupported algorithm"),
        (DKIMError::DnsLookupFailed, "dns lookup failed"),
        (DKIMError::KeyNotFound, "key not found"),
        (DKIMError::KeyRevoked, "key revoked"),
        (DKIMError::KeyTypeMismatch, "key type mismatch"),
        (DKIMError::BodyHashMismatch, "body hash mismatch"),
        (DKIMError::SignatureVerificationFailed, "signature verification failed"),
        (DKIMError::SignatureExpired, "signature expired"),
    ];
    for (error, text) in all {
        assert_eq!(error.message(), text);
        assert_eq!(DKIMResult::fail(error).with_detail(), format!("fail ({})", text));
    }
}

#[test]
fn a_result_can_be_copied() {
    let r = DKIMResult::fail(DKIMError::KeyRevoked);
    let s = r.clone();
    assert_eq!(s.summary(), r.summary());
    assert_eq!(s.error(), r.error());
}
