use email_auth::base64::decode_bytes;
use email_auth::bytes::{join, split, split_trimmed, trimmed, trimmed_end};
use email_auth::canonicalization::Type;
use email_auth::errors::{DKIMError, Tag};
use email_auth::key::{query_name, PublicKeyRecord};
use email_auth::signature::{Algorithm, KeyType, SignatureTags};
use email_auth::tags::{find_tag, read_number, read_tag_list, without_spaces};

const BODY_HASH: &str = "RHI91NDg1Go8f6isolS2HCe2tXiflhd+gsgHAECfFTU=";

fn value(parts: &[&str]) -> Vec<u8> {
    parts.join("; ").into_bytes()
}

fn error_of(parts: &[&str]) -> DKIMError {
    SignatureTags::parse(&value(parts)).unwrap_err()
}

#[test]
fn base64_decodes_groups_and_padding() {
    assert_eq!(decode_bytes(b""), Some(vec![]));
    assert_eq!(decode_bytes(b"aGkh"), Some(b"hi!".to_vec()));
    assert_eq!(decode_bytes(b"aGk="), Some(b"hi".to_vec()));
    assert_eq!(decode_bytes(b"aA=="), Some(b"h".to_vec()));
    assert_eq!(decode_bytes(b"AAECAwQF"), Some(vec![0, 1, 2, 3, 4, 5]));
    assert_eq!(decode_bytes(b"+/+/"), Some(vec![0xfb, 0xff, 0xbf]));
    assert_eq!(decode_bytes(b"////"), Some(vec![0xff, 0xff, 0xff]));
}

#[test]
fn base64_rejects_what_is_not_base64() {
    assert_eq!(decode_bytes(b"aGk"), None);
    assert_eq!(decode_bytes(b"a"), None);
    assert_eq!(decode_bytes(b"aG=k"), None);
    assert_eq!(decode_bytes(b"a$k="), None);
    assert_eq!(decode_bytes(b"aGk=aGk="), None);
    assert_eq!(decode_bytes(b"aR=="), None);
    assert_eq!(decode_bytes(b"aGl="), None);
    assert_eq!(decode_bytes(b"===="), None);
    assert_eq!(decode_bytes(b"aG k"), None);
}

#[test]
fn bytes_split_join_and_trim() {
    assert_eq!(split(b"a;b;;c", b';'), vec![b"a".to_vec(), b"b".to_vec(), vec![], b"c".to_vec()]);
    assert_eq!(split(b"", b';'), vec![Vec::<u8>::new()]);
    assert_eq!(split(b";", b';'), vec![Vec::<u8>::new(), Vec::<u8>::new()]);
    assert_eq!(join(&split(b"a;b;;c", b';'), b';'), b"a;b;;c".to_vec());
    assert_eq!(join(&vec![], b';'), Vec::<u8>::new());
    assert_eq!(trimmed(b" \t a b \r\n", true), b"a b".to_vec());
    assert_eq!(trimmed(b" \t a b \r\n", false), b"a b \r\n".to_vec());
    assert_eq!(trimmed(b" \t ", true), Vec::<u8>::new());
    assert_eq!(trimmed_end(b" a \t", false), b" a".to_vec());
    assert_eq!(split_trimmed(b" a : b\r\n :c", b':'), vec![b"a".to_vec(), b"b".to_vec(), b"c".to_vec()]);
}

#[test]
fn a_tag_list_is_read_piece_by_piece() {
    let tags = read_tag_list(b" a = 1 ;bh=x y;\r\n\tc_1=;").unwrap();
    assert_eq!(tags.len(), 3);
    assert_eq!(tags[0].name(), b"a");
    assert_eq!(tags[0].value(), b"1");
    assert_eq!(tags[1].name(), b"bh");
    assert_eq!(tags[1].value(), b"x y");
    assert_eq!(tags[2].name(), b"c_1");
    assert_eq!(tags[2].value(), b"");
    assert_eq!(find_tag(&tags, b"bh"), Some(&b"x y"[..]));
    assert_eq!(find_tag(&tags, b"BH"), None);
    assert_eq!(find_tag(&tags, b"z"), None);
    assert_eq!(read_tag_list(b"").unwrap().len(), 0);
    assert_eq!(read_tag_list(b"a=1").unwrap().len(), 1);
    assert_eq!(read_tag_list(b"a=b=c").unwrap()[0].value(), b"b=c");
}

#[test]
fn a_malformed_tag_list_is_refused() {
    assert!(read_tag_list(b"a").is_none());
    assert!(read_tag_list(b"a=1;;b=2").is_none());
    assert!(read_tag_list(b";a=1").is_none());
    assert!(read_tag_list(b"a=1;a=2").is_none());
    assert!(read_tag_list(b"1a=2").is_none());
    assert!(read_tag_list(b"a b=2").is_none());
    assert!(read_tag_list(b"=2").is_none());
    assert!(read_tag_list(b"a=1;b").is_none());
}

#[test]
fn numbers_are_read_in_digits() {
    assert_eq!(read_number(b"0"), Some(0));
    assert_eq!(read_number(b"123"), Some(123));
    assert_eq!(read_number(b"007"), Some(7));
    assert_eq!(read_number(b"18446744073709551615"), Some(u64::MAX));
    assert_eq!(read_number(b"18446744073709551616"), None);
    assert_eq!(read_number(b"99999999999999999999999"), None);
    assert_eq!(read_number(b""), None);
    assert_eq!(read_number(b"12a"), None);
    assert_eq!(read_number(b"-1"), None);
    assert_eq!(without_spaces(b" a\tb\r\n c "), b"abc".to_vec());
}

#[test]
fn a_signature_is_read_from_its_tags() {
    let bh = format!("bh={}", BODY_HASH);
    let sig = SignatureTags::parse(&value(&[
        "v=1",
        "a=rsa-sha256",
        "c=relaxed/simple",
        "d=x.com",
        "s=sel",
        "h=From : to:\r\n Subject",
        "l=12",
        "t=1000",
        "x=2000",
        "z=ignored",
        &bh,
        "b=aG\r\n\tkh",
    ]))
    .unwrap();
    assert_eq!(sig.algorithm(), Algorithm::RsaSha256);
    assert_eq!(sig.header_canonicalization(), Type::Relaxed);
    assert_eq!(sig.body_canonicalization(), Type::Simple);
    assert_eq!(sig.domain(), b"x.com");
    assert_eq!(sig.selector(), b"sel");
    assert_eq!(sig.signed_headers(), &vec![b"From".to_vec(), b"to".to_vec(), b"Subject".to_vec()]);
    assert_eq!(sig.body_hash().len(), 32);
    assert_eq!(sig.signature(), b"hi!");
    assert_eq!(sig.body_length(), Some(12));
    assert_eq!(sig.timestamp(), Some(1000));
    assert_eq!(sig.expiration(), Some(2000));
}

#[test]
fn absent_tags_have_their_defaults() {
    let bh = format!("bh={}", BODY_HASH);
    let sig =
        SignatureTags::parse(&value(&["a=ed25519-sha256", "d=x.com", "s=sel", "h=from", &bh, "b=aGkh"]))
            .unwrap();
    assert_eq!(sig.algorithm(), Algorithm::Ed25519Sha256);
    assert_eq!(sig.header_canonicalization(), Type::Simple);
    assert_eq!(sig.body_canonicalization(), Type::Simple);
    assert_eq!(sig.body_length(), None);
    assert_eq!(sig.timestamp(), None);
    assert_eq!(sig.expiration(), None);
    let sig = SignatureTags::parse(&value(&[
        "a=rsa-sha256",
        "c=relaxed",
        "d=x.com",
        "s=sel",
        "h=from",
        &bh,
        "b=aGkh",
    ]))
    .unwrap();
    assert_eq!(sig.header_canonicalization(), Type::Relaxed);
    assert_eq!(sig.body_canonicalization(), Type::Simple);
}

#[test]
fn every_tag_has_its_syntax_error() {
    let bh = format!("bh={}", BODY_HASH);
    let bh = bh.as_str();
    let syntax = DKIMError::SignatureSyntaxError;
    assert_eq!(SignatureTags::parse(b"a=rsa-sha256; d").unwrap_err(), syntax(Tag::List));
    assert_eq!(
        error_of(&["v=2", "a=rsa-sha256", "d=x.com", "s=sel", "h=from", bh, "b=aGkh"]),
        syntax(Tag::Version)
    );
    assert_eq!(error_of(&["d=x.com", "s=sel", "h=from", bh, "b=aGkh"]), syntax(Tag::Algorithm));
    assert_eq!(
        error_of(&["a=rsa-md5", "d=x.com", "s=sel", "h=from", bh, "b=aGkh"]),
        DKIMError::UnsupportedAlgorithm
    );
    assert_eq!(
        error_of(&["a=RSA-SHA256", "d=x.com", "s=sel", "h=from", bh, "b=aGkh"]),
        DKIMError::UnsupportedAlgorithm
    );
    assert_eq!(error_of(&["a=rsa-sha256", "d=x.com", "s=sel", "h=from", bh]), syntax(Tag::Signature));
    assert_eq!(
        error_of(&["a=rsa-sha256", "d=x.com", "s=sel", "h=from", bh, "b="]),
        syntax(Tag::Signature)
    );
    assert_eq!(
        error_of(&["a=rsa-sha256", "d=x.com", "s=sel", "h=from", bh, "b=a!kh"]),
        syntax(Tag::Signature)
    );
    assert_eq!(
        error_of(&["a=rsa-sha256", "d=x.com", "s=sel", "h=from", "b=aGkh"]),
        syntax(Tag::BodyHash)
    );
    assert_eq!(
        error_of(&["a=rsa-sha256", "d=x.com", "s=sel", "h=from", "bh=aGkh", "b=aGkh"]),
        syntax(Tag::BodyHash)
    );
    assert_eq!(
        error_of(&["a=rsa-sha1", "d=x.com", "s=sel", "h=from", bh, "b=aGkh"]),
        syntax(Tag::BodyHash)
    );
    assert_eq!(
        error_of(&["a=rsa-sha256", "c=strict", "d=x.com", "s=sel", "h=from", bh, "b=aGkh"]),
        syntax(Tag::Canonicalization)
    );
    assert_eq!(
        error_of(&["a=rsa-sha256", "c=simple/", "d=x.com", "s=sel", "h=from", bh, "b=aGkh"]),
        syntax(Tag::Canonicalization)
    );
    assert_eq!(error_of(&["a=rsa-sha256", "s=sel", "h=from", bh, "b=aGkh"]), syntax(Tag::Domain));
    assert_eq!(
        error_of(&["a=rsa-sha256", "d=x com", "s=sel", "h=from", bh, "b=aGkh"]),
        syntax(Tag::Domain)
    );
    assert_eq!(
        error_of(&["a=rsa-sha256", "d=x.com", "s=sel", bh, "b=aGkh"]),
        syntax(Tag::SignedHeaders)
    );
    assert_eq!(
        error_of(&["a=rsa-sha256", "d=x.com", "s=sel", "h=to:subject", bh, "b=aGkh"]),
        syntax(Tag::SignedHeaders)
    );
    assert_eq!(
        error_of(&["a=rsa-sha256", "d=x.com", "s=sel", "h=from::to", bh, "b=aGkh"]),
        syntax(Tag::SignedHeaders)
    );
    assert_eq!(
        error_of(&["a=rsa-sha256", "d=x.com", "s=sel", "h=from", "l=1x", bh, "b=aGkh"]),
        syntax(Tag::BodyLength)
    );
    assert_eq!(error_of(&["a=rsa-sha256", "d=x.com", "h=from", bh, "b=aGkh"]), syntax(Tag::Selector));
    assert_eq!(
        error_of(&["a=rsa-sha256", "d=x.com", "s=", "h=from", bh, "b=aGkh"]),
        syntax(Tag::Selector)
    );
    assert_eq!(
        error_of(&["a=rsa-sha256", "d=x.com", "s=sel", "h=from", "t=", bh, "b=aGkh"]),
        syntax(Tag::Timestamp)
    );
    assert_eq!(
        error_of(&["a=rsa-sha256", "d=x.com", "s=sel", "h=from", "x=soon", bh, "b=aGkh"]),
        syntax(Tag::Expiration)
    );
}

#[test]
fn the_first_fault_in_the_order_of_the_tags_is_reported() {
    assert_eq!(error_of(&["v=2", "a=rsa-md5"]), DKIMError::SignatureSyntaxError(Tag::Version));
    assert_eq!(error_of(&["a=rsa-md5", "x=soon"]), DKIMError::UnsupportedAlgorithm);
    assert_eq!(
        error_of(&["a=rsa-sha256", "x=soon", "b=aGkh"]),
        DKIMError::SignatureSyntaxError(Tag::BodyHash)
    );
}

#[test]
fn a_key_record_is_read_from_its_tags() {
    let key = PublicKeyRecord::parse(b"v=DKIM1; k=rsa; s=email:*; t=y : s; p=aG\r\n kh").unwrap();
    assert_eq!(key.key_type(), KeyType::Rsa);
    assert_eq!(key.public_key(), b"hi!");
    assert_eq!(key.services(), &Some(vec![b"email".to_vec(), b"*".to_vec()]));
    assert_eq!(key.flags(), &Some(vec![b"y".to_vec(), b"s".to_vec()]));
    let key = PublicKeyRecord::parse(b"p=aGkh").unwrap();
    assert_eq!(key.key_type(), KeyType::Rsa);
    assert_eq!(key.services(), &None);
    assert_eq!(key.flags(), &None);
    let key = PublicKeyRecord::parse(b"k=ed25519; p=aGkh").unwrap();
    assert_eq!(key.key_type(), KeyType::Ed25519);
}

#[test]
fn a_key_record_fails_for_its_own_reason() {
    assert_eq!(PublicKeyRecord::parse(b"v=DKIM1; k=rsa; p=").unwrap_err(), DKIMError::KeyRevoked);
    assert_eq!(PublicKeyRecord::parse(b"v=DKIM1; k=rsa").unwrap_err(), DKIMError::KeyRevoked);
    assert_eq!(PublicKeyRecord::parse(b"v=DKIM1; k=rsa; p= \r\n ").unwrap_err(), DKIMError::KeyRevoked);
    assert_eq!(PublicKeyRecord::parse(b"v=DKIM2; k=dsa; p=").unwrap_err(), DKIMError::KeyRevoked);
    assert_eq!(PublicKeyRecord::parse(b"").unwrap_err(), DKIMError::KeyRevoked);
    assert_eq!(PublicKeyRecord::parse(b"v=DKIM2; p=aGkh").unwrap_err(), DKIMError::KeyTypeMismatch);
    assert_eq!(PublicKeyRecord::parse(b"v=dkim1; p=aGkh").unwrap_err(), DKIMError::KeyTypeMismatch);
    assert_eq!(PublicKeyRecord::parse(b"k=dsa; p=aGkh").unwrap_err(), DKIMError::KeyTypeMismatch);
    assert_eq!(PublicKeyRecord::parse(b"p=a!kh").unwrap_err(), DKIMError::KeyNotFound);
    assert_eq!(PublicKeyRecord::parse(b"no record").unwrap_err(), DKIMError::KeyNotFound);
    assert_eq!(PublicKeyRecord::parse(b"p=aGkh; p=aGkh").unwrap_err(), DKIMError::KeyNotFound);
}

#[test]
fn an_answer_is_read_as_one_text() {
    let answer = Ok(vec!["v=DKIM1; k=r".to_string(), "sa; p=aG".to_string(), "kh".to_string()]);
    let key = PublicKeyRecord::from_answer(&answer).unwrap();
    assert_eq!(key.key_type(), KeyType::Rsa);
    assert_eq!(key.public_key(), b"hi!");
    assert_eq!(PublicKeyRecord::from_answer(&Ok(vec![])).unwrap_err(), DKIMError::KeyNotFound);
    assert_eq!(
        PublicKeyRecord::from_answer(&Ok(vec![String::new()])).unwrap_err(),
        DKIMError::KeyRevoked
    );
    assert_eq!(
        PublicKeyRecord::from_answer(&Err(DKIMError::DnsLookupFailed)).unwrap_err(),
        DKIMError::DnsLookupFailed
    );
    assert_eq!(
        PublicKeyRecord::from_answer(&Err(DKIMError::KeyNotFound)).unwrap_err(),
        DKIMError::KeyNotFound
    );
}

#[test]
fn the_key_is_asked_for_under_selector_and_domain() {
    assert_eq!(query_name(b"sel", b"x.com"), Some("sel._domainkey.x.com".to_string()));
    assert_eq!(
        query_name(b"a.b-1", b"Mail_2.Example.ORG"),
        Some("a.b-1._domainkey.Mail_2.Example.ORG".to_string())
    );
    assert_eq!(query_name(b"", b"x.com"), None);
    assert_eq!(query_name(b"sel", b""), None);
    assert_eq!(query_name(b"s l", b"x.com"), None);
    assert_eq!(query_name(b"sel", b"x.com\xc3\xa9"), None);
}
