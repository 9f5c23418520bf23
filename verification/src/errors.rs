//! Reasons for which one signature of a message does not verify.

use vstd::prelude::*;

verus! {

/// The part of a `DKIM-Signature` header value that a syntax error lies in.
#[derive(Clone, Copy, Debug, PartialEq, Eq, Structural)]
pub enum Tag {
    /// The `tag=value` list as a whole.
    List,
    /// `v=`
    Version,
    /// `a=`
    Algorithm,
    /// `b=`
    Signature,
    /// `bh=`
    BodyHash,
    /// `c=`
    Canonicalization,
    /// `d=`
    Domain,
    /// `h=`
    SignedHeaders,
    /// `l=`
    BodyLength,
    /// `s=`
    Selector,
    /// `t=`
    Timestamp,
    /// `x=`
    Expiration,
}

/// Why a signature did not verify.
#[derive(Clone, Copy, Debug, PartialEq, Eq, Structural)]
pub enum DKIMError {
    /// A tag of the signature header is malformed, or a mandatory one is missing.
    SignatureSyntaxError(Tag),
    /// The signature names a signing algorithm that is not implemented.
    UnsupportedAlgorithm,
    /// The key record could not be queried; the caller may try again.
    DnsLookupFailed,
    /// There is no usable key record under the selector and domain.
    KeyNotFound,
    /// The key record is there, and its public key is empty.
    KeyRevoked,
    /// The key's type does not fit the signature's algorithm.
    KeyTypeMismatch,
    /// The digest of the canonical body is not the one the signature declares.
    BodyHashMismatch,
    /// The cryptographic check of the signature failed.
    SignatureVerificationFailed,
    /// The signature's expiration time has passed.
    SignatureExpired,
}

impl Tag {
    /// The tag's name as it is written in a header.
    pub open spec fn name(self) -> Seq<char> {
        match self {
            Tag::List => "tag list"@,
            Tag::Version => "v"@,
            Tag::Algorithm => "a"@,
            Tag::Signature => "b"@,
            Tag::BodyHash => "bh"@,
            Tag::Canonicalization => "c"@,
            Tag::Domain => "d"@,
            Tag::SignedHeaders => "h"@,
            Tag::BodyLength => "l"@,
            Tag::Selector => "s"@,
            Tag::Timestamp => "t"@,
            Tag::Expiration => "x"@,
        }
    }

    /// The tag's name as it is written in a header.
    pub fn as_str(&self) -> (r: &'static str)
        ensures
            r@ == self.name(),
    {
        match self {
            Tag::List => "tag list",
            Tag::Version => "v",
            Tag::Algorithm => "a",
            Tag::Signature => "b",
            Tag::BodyHash => "bh",
            Tag::Canonicalization => "c",
            Tag::Domain => "d",
            Tag::SignedHeaders => "h",
            Tag::BodyLength => "l",
            Tag::Selector => "s",
            Tag::Timestamp => "t",
            Tag::Expiration => "x",
        }
    }
}

impl DKIMError {
    /// The text that names the kind of failure.
    pub open spec fn kind_text(self) -> Seq<char> {
        match self {
            DKIMError::SignatureSyntaxError(_) => "signature syntax error"@,
            DKIMError::UnsupportedAlgorithm => "unsupported algorithm"@,
            DKIMError::DnsLookupFailed => "dns lookup failed"@,
            DKIMError::KeyNotFound => "key not found"@,
            DKIMError::KeyRevoked => "key revoked"@,
            DKIMError::KeyTypeMismatch => "key type mismatch"@,
            DKIMError::BodyHashMismatch => "body hash mismatch"@,
            DKIMError::SignatureVerificationFailed => "signature verification failed"@,
            DKIMError::SignatureExpired => "signature expired"@,
        }
    }

    /// The reason as it is reported: the kind, and for a syntax error the
    /// offending tag after a colon and a space.
    pub open spec fn text(self) -> Seq<char> {
        match self {
            DKIMError::SignatureSyntaxError(tag) => self.kind_text() + ": "@ + tag.name(),
            _ => self.kind_text(),
        }
    }

    /// The text that names the kind of failure.
    pub fn kind(&self) -> (r: &'static str)
        ensures
            r@ == self.kind_text(),
    {
        match self {
            DKIMError::SignatureSyntaxError(_) => "signature syntax error",
            DKIMError::UnsupportedAlgorithm => "unsupported algorithm",
            DKIMError::DnsLookupFailed => "dns lookup failed",
            DKIMError::KeyNotFound => "key not found",
            DKIMError::KeyRevoked => "key revoked",
            DKIMError::KeyTypeMismatch => "key type mismatch",
            DKIMError::BodyHashMismatch => "body hash mismatch",
            DKIMError::SignatureVerificationFailed => "signature verification failed",
            DKIMError::SignatureExpired => "signature expired",
        }
    }

    /// The reason as a string, as it stands in a detailed result.
    pub fn message(&self) -> (r: String)
        ensures
            r@ == self.text(),
    {
        let mut out = String::from_str(self.kind());
        match self {
            DKIMError::SignatureSyntaxError(tag) => {
                out.append(": ");
                out.append(tag.as_str());
            },
            _ => {},
        }
        out
    }
}

} // verus!
