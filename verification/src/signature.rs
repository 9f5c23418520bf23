//! The tags of one `DKIM-Signature` header.

use vstd::prelude::*;
use vstd::utf8::is_ascii_chars;
use crate::base64::{decode, decode_bytes};
use crate::bytes::{
    ascii, bytes_eq_ignore_case, copy_range, eq_ignore_case, find_from, index_of, is_text, split,
    split_on, text, trim_all, trimmed, views, COLON,
};
use crate::canonicalization::Type;
use crate::errors::{DKIMError, Tag};
use crate::tags::{
    find_tag, is_alpha, is_digit, parse_number, parse_tag_list, read_number, read_tag_list,
    remove_spaces, tag_value, tag_views, without_spaces, TagSpec, TagView,
};

verus! {

pub const SLASH: u8 = 47;

/// A hash function.
#[derive(Clone, Copy, Debug, PartialEq, Eq, Structural)]
pub enum HashAlgorithm {
    Sha1,
    Sha256,
}

/// A family of keys.
#[derive(Clone, Copy, Debug, PartialEq, Eq, Structural)]
pub enum KeyType {
    Rsa,
    Ed25519,
}

/// A signing algorithm: a family of keys and a hash function.
#[derive(Clone, Copy, Debug, PartialEq, Eq, Structural)]
pub enum Algorithm {
    /// `rsa-sha1`
    RsaSha1,
    /// `rsa-sha256`
    RsaSha256,
    /// `ed25519-sha256`
    Ed25519Sha256,
}

impl HashAlgorithm {
    /// The length in bytes of a digest.
    pub open spec fn digest_len(self) -> nat {
        match self {
            HashAlgorithm::Sha1 => 20,
            HashAlgorithm::Sha256 => 32,
        }
    }

    /// The length in bytes of a digest.
    pub fn digest_length(&self) -> (r: usize)
        ensures
            r == self.digest_len(),
    {
        match self {
            HashAlgorithm::Sha1 => 20,
            HashAlgorithm::Sha256 => 32,
        }
    }
}

impl Algorithm {
    /// The hash function of the algorithm.
    pub open spec fn hash(self) -> HashAlgorithm {
        match self {
            Algorithm::RsaSha1 => HashAlgorithm::Sha1,
            Algorithm::RsaSha256 => HashAlgorithm::Sha256,
            Algorithm::Ed25519Sha256 => HashAlgorithm::Sha256,
        }
    }

    /// The family of keys of the algorithm.
    pub open spec fn key_type(self) -> KeyType {
        match self {
            Algorithm::RsaSha1 => KeyType::Rsa,
            Algorithm::RsaSha256 => KeyType::Rsa,
            Algorithm::Ed25519Sha256 => KeyType::Ed25519,
        }
    }

    /// The hash function of the algorithm.
    pub fn hash_algorithm(&self) -> (r: HashAlgorithm)
        ensures
            r == self.hash(),
    {
        match self {
            Algorithm::RsaSha1 => HashAlgorithm::Sha1,
            Algorithm::RsaSha256 => HashAlgorithm::Sha256,
            Algorithm::Ed25519Sha256 => HashAlgorithm::Sha256,
        }
    }

    /// The family of keys of the algorithm.
    pub fn key_family(&self) -> (r: KeyType)
        ensures
            r == self.key_type(),
    {
        match self {
            Algorithm::RsaSha1 => KeyType::Rsa,
            Algorithm::RsaSha256 => KeyType::Rsa,
            Algorithm::Ed25519Sha256 => KeyType::Ed25519,
        }
    }
}

/// The tags of one signature, read and checked.
#[derive(Debug)]
pub struct SignatureTags {
    algorithm: Algorithm,
    header_canonicalization: Type,
    body_canonicalization: Type,
    domain: Vec<u8>,
    selector: Vec<u8>,
    signed_headers: Vec<Vec<u8>>,
    body_hash: Vec<u8>,
    signature: Vec<u8>,
    body_length: Option<u64>,
    timestamp: Option<u64>,
    expiration: Option<u64>,
}

/// What a [`SignatureTags`] holds.
pub struct SignatureView {
    /// `a=`
    pub algorithm: Algorithm,
    /// The first part of `c=`.
    pub header_canonicalization: Type,
    /// The second part of `c=`.
    pub body_canonicalization: Type,
    /// `d=`
    pub domain: Seq<u8>,
    /// `s=`
    pub selector: Seq<u8>,
    /// `h=`, in the order listed.
    pub signed_headers: Seq<Seq<u8>>,
    /// `bh=`, decoded.
    pub body_hash: Seq<u8>,
    /// `b=`, decoded.
    pub signature: Seq<u8>,
    /// `l=`
    pub body_length: Option<u64>,
    /// `t=`
    pub timestamp: Option<u64>,
    /// `x=`
    pub expiration: Option<u64>,
}

impl View for SignatureTags {
    type V = SignatureView;

    closed spec fn view(&self) -> SignatureView {
        SignatureView {
            algorithm: self.algorithm,
            header_canonicalization: self.header_canonicalization,
            body_canonicalization: self.body_canonicalization,
            domain: self.domain@,
            selector: self.selector@,
            signed_headers: views(self.signed_headers@),
            body_hash: self.body_hash@,
            signature: self.signature@,
            body_length: self.body_length,
            timestamp: self.timestamp,
            expiration: self.expiration,
        }
    }
}

/// The algorithm that a value of `a=` names.
pub open spec fn algorithm_named(v: Seq<u8>) -> Option<Algorithm> {
    if v == ascii("rsa-sha1"@) {
        Some(Algorithm::RsaSha1)
    } else if v == ascii("rsa-sha256"@) {
        Some(Algorithm::RsaSha256)
    } else if v == ascii("ed25519-sha256"@) {
        Some(Algorithm::Ed25519Sha256)
    } else {
        None
    }
}

/// The canonicalization that a word names.
pub open spec fn type_named(v: Seq<u8>) -> Option<Type> {
    if v == ascii("simple"@) {
        Some(Type::Simple)
    } else if v == ascii("relaxed"@) {
        Some(Type::Relaxed)
    } else {
        None
    }
}

/// The two canonicalizations that a value of `c=` names, for headers and
/// for the body: two words with a slash between them, or one word for the
/// headers, and then the body is simple.
pub open spec fn types_named(v: Seq<u8>) -> Option<(Type, Type)> {
    let k = index_of(v, SLASH);
    if 0 <= k < v.len() {
        match (type_named(v.take(k)), type_named(v.skip(k + 1))) {
            (Some(h), Some(b)) => Some((h, b)),
            _ => None,
        }
    } else {
        match type_named(v) {
            Some(h) => Some((h, Type::Simple)),
            None => None,
        }
    }
}

/// A byte of a domain name or a selector.
pub open spec fn is_domain_byte(b: u8) -> bool {
    is_alpha(b) || is_digit(b) || b == 45 || b == 46 || b == 95
}

/// A domain name or a selector: letters, digits, hyphens, dots and
/// underscores, at least one.
pub open spec fn is_domain(s: Seq<u8>) -> bool {
    s.len() > 0 && forall|i: int| 0 <= i < s.len() ==> is_domain_byte(s[i])
}

/// Whether a name of the list is `wanted`, up to case.
pub open spec fn includes_name(names: Seq<Seq<u8>>, wanted: Seq<u8>) -> bool
    decreases names.len(),
{
    names.len() > 0 && (eq_ignore_case(names.last(), wanted) || includes_name(
        names.drop_last(),
        wanted,
    ))
}

/// The header names that a value of `h=` lists: the pieces between colons,
/// none of them empty, `From` among them.
pub open spec fn names_listed(v: Seq<u8>) -> Option<Seq<Seq<u8>>> {
    let names = trim_all(split_on(v, COLON));
    if (forall|i: int| 0 <= i < names.len() ==> (#[trigger] names[i]).len() > 0) && includes_name(
        names,
        ascii("from"@),
    ) {
        Some(names)
    } else {
        None
    }
}

/// The bytes that a base64 value with folding whitespace in it encodes.
pub open spec fn blob(v: Seq<u8>) -> Option<Seq<u8>> {
    decode(remove_spaces(v))
}

/// The number of an optional tag: `Some(None)` where the tag is absent,
/// `None` where its value is no number.
pub open spec fn optional_number(tags: Seq<TagView>, name: Seq<u8>) -> Option<Option<u64>> {
    match tag_value(tags, name) {
        None => Some(None),
        Some(v) => match parse_number(v) {
            Some(n) => Some(Some(n)),
            None => None,
        },
    }
}

/// The signature that a list of tags describes, or the first fault found.
/// The tags are looked at in this order: `v`, `a`, `b`, `bh`, `c`, `d`,
/// `h`, `l`, `s`, `t`, `x`. Tags with other names are passed over.
///
/// - `v`, where present, is `1`.
/// - `a` is present; a value that names no known algorithm is the one fault
///   that is not a syntax error.
/// - `b` is present and is base64 of at least one byte.
/// - `bh` is present and is base64 of a digest of the algorithm's length.
/// - `c`, where present, names the canonicalizations; absent, both are
///   simple.
/// - `d` and `s` are present and are domain names.
/// - `h` is present and lists header names, `From` among them.
/// - `l`, `t` and `x`, where present, are numbers.
pub open spec fn signature_of(tags: Seq<TagView>) -> Result<SignatureView, DKIMError> {
    let v = tag_value(tags, ascii("v"@));
    let a = tag_value(tags, ascii("a"@));
    let b = tag_value(tags, ascii("b"@));
    let bh = tag_value(tags, ascii("bh"@));
    let c = tag_value(tags, ascii("c"@));
    let d = tag_value(tags, ascii("d"@));
    let h = tag_value(tags, ascii("h"@));
    let s = tag_value(tags, ascii("s"@));
    let l = optional_number(tags, ascii("l"@));
    let t = optional_number(tags, ascii("t"@));
    let x = optional_number(tags, ascii("x"@));
    if v is Some && v->Some_0 != ascii("1"@) {
        Err(DKIMError::SignatureSyntaxError(Tag::Version))
    } else if a is None {
        Err(DKIMError::SignatureSyntaxError(Tag::Algorithm))
    } else if algorithm_named(a->Some_0) is None {
        Err(DKIMError::UnsupportedAlgorithm)
    } else if b is None || blob(b->Some_0) is None || blob(b->Some_0)->Some_0.len() == 0 {
        Err(DKIMError::SignatureSyntaxError(Tag::Signature))
    } else if bh is None || blob(bh->Some_0) is None || blob(bh->Some_0)->Some_0.len()
        != algorithm_named(a->Some_0)->Some_0.hash().digest_len() {
        Err(DKIMError::SignatureSyntaxError(Tag::BodyHash))
    } else if c is Some && types_named(c->Some_0) is None {
        Err(DKIMError::SignatureSyntaxError(Tag::Canonicalization))
    } else if d is None || !is_domain(d->Some_0) {
        Err(DKIMError::SignatureSyntaxError(Tag::Domain))
    } else if h is None || names_listed(h->Some_0) is None {
        Err(DKIMError::SignatureSyntaxError(Tag::SignedHeaders))
    } else if l is None {
        Err(DKIMError::SignatureSyntaxError(Tag::BodyLength))
    } else if s is None || !is_domain(s->Some_0) {
        Err(DKIMError::SignatureSyntaxError(Tag::Selector))
    } else if t is None {
        Err(DKIMError::SignatureSyntaxError(Tag::Timestamp))
    } else if x is None {
        Err(DKIMError::SignatureSyntaxError(Tag::Expiration))
    } else {
        let types = if c is Some {
            types_named(c->Some_0)->Some_0
        } else {
            (Type::Simple, Type::Simple)
        };
        Ok(
            SignatureView {
                algorithm: algorithm_named(a->Some_0)->Some_0,
                header_canonicalization: types.0,
                body_canonicalization: types.1,
                domain: d->Some_0,
                selector: s->Some_0,
                signed_headers: names_listed(h->Some_0)->Some_0,
                body_hash: blob(bh->Some_0)->Some_0,
                signature: blob(b->Some_0)->Some_0,
                body_length: l->Some_0,
                timestamp: t->Some_0,
                expiration: x->Some_0,
            },
        )
    }
}

/// The signature that the value of a `DKIM-Signature` header describes, or
/// the first fault found: a malformed tag list, or what [`signature_of`]
/// finds in the tags.
pub open spec fn parse_signature(value: Seq<u8>) -> Result<SignatureView, DKIMError> {
    match parse_tag_list(value) {
        None => Err(DKIMError::SignatureSyntaxError(Tag::List)),
        Some(tags) => signature_of(tags),
    }
}

fn read_algorithm(v: &[u8]) -> (r: Option<Algorithm>)
    ensures
        r == algorithm_named(v@),
{
    proof {
        reveal_strlit("rsa-sha1");
        reveal_strlit("rsa-sha256");
        reveal_strlit("ed25519-sha256");
    }
    if is_text(v, "rsa-sha1") {
        Some(Algorithm::RsaSha1)
    } else if is_text(v, "rsa-sha256") {
        Some(Algorithm::RsaSha256)
    } else if is_text(v, "ed25519-sha256") {
        Some(Algorithm::Ed25519Sha256)
    } else {
        None
    }
}

fn read_type(v: &[u8]) -> (r: Option<Type>)
    ensures
        r == type_named(v@),
{
    proof {
        reveal_strlit("simple");
        reveal_strlit("relaxed");
    }
    if is_text(v, "simple") {
        Some(Type::Simple)
    } else if is_text(v, "relaxed") {
        Some(Type::Relaxed)
    } else {
        None
    }
}

fn read_types(v: &[u8]) -> (r: Option<(Type, Type)>)
    ensures
        r == types_named(v@),
{
    assert(v@.skip(0) =~= v@);
    let k = find_from(v, 0, SLASH);
    if k < v.len() {
        let left = copy_range(v, 0, k);
        let right = copy_range(v, k + 1, v.len());
        assert(left@ =~= v@.take(k as int));
        assert(right@ =~= v@.skip(k + 1));
        match (read_type(left.as_slice()), read_type(right.as_slice())) {
            (Some(h), Some(b)) => Some((h, b)),
            _ => None,
        }
    } else {
        match read_type(v) {
            Some(h) => Some((h, Type::Simple)),
            None => None,
        }
    }
}

/// Whether `s` is a domain name or a selector.
pub fn domain_name(s: &[u8]) -> (r: bool)
    ensures
        r == is_domain(s@),
{
    if s.len() == 0 {
        return false;
    }
    let mut i: usize = 0;
    while i < s.len()
        invariant
            i <= s.len(),
            forall|j: int| 0 <= j < i ==> is_domain_byte(s@[j]),
        decreases s.len() - i,
    {
        let b = s[i];
        let ok = (65 <= b && b <= 90) || (97 <= b && b <= 122) || (48 <= b && b <= 57) || b == 45
            || b == 46 || b == 95;
        if !ok {
            return false;
        }
        i += 1;
    }
    true
}

fn read_names(v: &[u8]) -> (r: Option<Vec<Vec<u8>>>)
    ensures
        match r {
            Some(names) => names_listed(v@) == Some(views(names@)),
            None => names_listed(v@) is None,
        },
{
    proof {
        reveal_strlit("from");
    }
    let pieces = split(v, COLON);
    let ghost all = trim_all(split_on(v@, COLON));
    let mut out: Vec<Vec<u8>> = Vec::new();
    let mut has_from = false;
    let mut i: usize = 0;
    assert(all.take(0) =~= Seq::<Seq<u8>>::empty());
    while i < pieces.len()
        invariant
            i <= pieces.len(),
            views(pieces@) == split_on(v@, COLON),
            all == trim_all(split_on(v@, COLON)),
            views(out@) == all.take(i as int),
            has_from == includes_name(all.take(i as int), ascii("from"@)),
            forall|j: int| 0 <= j < i ==> (#[trigger] all[j]).len() > 0,
            is_ascii_chars("from"@),
        decreases pieces.len() - i,
    {
        let name = trimmed(pieces[i].as_slice(), true);
        proof {
            assert(views(pieces@)[i as int] == pieces@[i as int]@);
            assert(name@ == all[i as int]);
            assert(all.take(i + 1).drop_last() =~= all.take(i as int));
            assert(all.take(i + 1).last() == name@);
        }
        if name.len() == 0 {
            return None;
        }
        if is_from(name.as_slice()) {
            has_from = true;
        }
        let ghost before = views(out@);
        out.push(name);
        assert(views(out@) =~= before.push(name@));
        assert(all.take(i + 1) =~= all.take(i as int).push(name@));
        i += 1;
    }
    assert(all.take(i as int) =~= all);
    if has_from {
        Some(out)
    } else {
        None
    }
}

fn is_from(name: &[u8]) -> (r: bool)
    ensures
        r == eq_ignore_case(name@, ascii("from"@)),
{
    proof {
        reveal_strlit("from");
    }
    bytes_eq_ignore_case(name, text("from"))
}

fn read_blob(v: &[u8]) -> (r: Option<Vec<u8>>)
    ensures
        match r {
            Some(bytes) => blob(v@) == Some(bytes@),
            None => blob(v@) is None,
        },
{
    let packed = without_spaces(v);
    decode_bytes(packed.as_slice())
}

fn read_optional_number(tags: &Vec<TagSpec>, name: &[u8]) -> (r: Option<Option<u64>>)
    ensures
        r == optional_number(tag_views(tags@), name@),
{
    match find_tag(tags, name) {
        None => Some(None),
        Some(v) => match read_number(v) {
            Some(n) => Some(Some(n)),
            None => None,
        },
    }
}

impl SignatureTags {
    #[verifier::type_invariant]
    spec fn well_formed(self) -> bool {
        signature_wf(self@)
    }

    /// The signing algorithm, `a=`.
    pub fn algorithm(&self) -> (r: Algorithm)
        ensures
            r == self@.algorithm,
    {
        self.algorithm
    }

    /// The canonicalization of the headers, from `c=`.
    pub fn header_canonicalization(&self) -> (r: Type)
        ensures
            r == self@.header_canonicalization,
    {
        self.header_canonicalization
    }

    /// The canonicalization of the body, from `c=`.
    pub fn body_canonicalization(&self) -> (r: Type)
        ensures
            r == self@.body_canonicalization,
    {
        self.body_canonicalization
    }

    /// The signing domain, `d=`.
    pub fn domain(&self) -> (r: &[u8])
        ensures
            r@ == self@.domain,
            signature_wf(self@),
    {
        proof {
            use_type_invariant(self);
        }
        self.domain.as_slice()
    }

    /// The selector, `s=`.
    pub fn selector(&self) -> (r: &[u8])
        ensures
            r@ == self@.selector,
            signature_wf(self@),
    {
        proof {
            use_type_invariant(self);
        }
        self.selector.as_slice()
    }

    /// The names of the signed headers, `h=`, in the order listed.
    pub fn signed_headers(&self) -> (r: &Vec<Vec<u8>>)
        ensures
            views(r@) == self@.signed_headers,
    {
        &self.signed_headers
    }

    /// The declared digest of the body, `bh=`, decoded.
    pub fn body_hash(&self) -> (r: &[u8])
        ensures
            r@ == self@.body_hash,
    {
        self.body_hash.as_slice()
    }

    /// The signature, `b=`, decoded.
    pub fn signature(&self) -> (r: &[u8])
        ensures
            r@ == self@.signature,
    {
        self.signature.as_slice()
    }

    /// The number of body bytes that were signed, `l=`.
    pub fn body_length(&self) -> (r: Option<u64>)
        ensures
            r == self@.body_length,
    {
        self.body_length
    }

    /// The time of signing, `t=`.
    pub fn timestamp(&self) -> (r: Option<u64>)
        ensures
            r == self@.timestamp,
    {
        self.timestamp
    }

    /// The time after which the signature is not valid, `x=`.
    pub fn expiration(&self) -> (r: Option<u64>)
        ensures
            r == self@.expiration,
    {
        self.expiration
    }

    /// Reads the tags from a list of `tag=value` pairs.
    pub fn from_tags(tags: &Vec<TagSpec>) -> (r: Result<SignatureTags, DKIMError>)
        ensures
            match r {
                Ok(s) => signature_of(tag_views(tags@)) == Ok::<SignatureView, DKIMError>(s@)
                    && signature_wf(s@),
                Err(e) => signature_of(tag_views(tags@)) == Err::<SignatureView, DKIMError>(e),
            },
    {
        proof {
            reveal_strlit("v");
            reveal_strlit("a");
            reveal_strlit("b");
            reveal_strlit("bh");
            reveal_strlit("c");
            reveal_strlit("d");
            reveal_strlit("h");
            reveal_strlit("l");
            reveal_strlit("s");
            reveal_strlit("t");
            reveal_strlit("x");
            reveal_strlit("1");
        }
        match find_tag(tags, text("v")) {
            Some(v) => {
                if !is_text(v, "1") {
                    return Err(DKIMError::SignatureSyntaxError(Tag::Version));
                }
            },
            None => {},
        }
        let algorithm = match find_tag(tags, text("a")) {
            None => {
                return Err(DKIMError::SignatureSyntaxError(Tag::Algorithm));
            },
            Some(a) => match read_algorithm(a) {
                None => {
                    return Err(DKIMError::UnsupportedAlgorithm);
                },
                Some(algorithm) => algorithm,
            },
        };
        let signature = match find_tag(tags, text("b")) {
            None => {
                return Err(DKIMError::SignatureSyntaxError(Tag::Signature));
            },
            Some(b) => match read_blob(b) {
                None => {
                    return Err(DKIMError::SignatureSyntaxError(Tag::Signature));
                },
                Some(bytes) => bytes,
            },
        };
        if signature.len() == 0 {
            return Err(DKIMError::SignatureSyntaxError(Tag::Signature));
        }
        let body_hash = match find_tag(tags, text("bh")) {
            None => {
                return Err(DKIMError::SignatureSyntaxError(Tag::BodyHash));
            },
            Some(bh) => match read_blob(bh) {
                None => {
                    return Err(DKIMError::SignatureSyntaxError(Tag::BodyHash));
                },
                Some(bytes) => bytes,
            },
        };
        if body_hash.len() != algorithm.hash_algorithm().digest_length() {
            return Err(DKIMError::SignatureSyntaxError(Tag::BodyHash));
        }
        let types = match find_tag(tags, text("c")) {
            None => (Type::Simple, Type::Simple),
            Some(c) => match read_types(c) {
                None => {
                    return Err(DKIMError::SignatureSyntaxError(Tag::Canonicalization));
                },
                Some(types) => types,
            },
        };
        let domain = match find_tag(tags, text("d")) {
            None => {
                return Err(DKIMError::SignatureSyntaxError(Tag::Domain));
            },
            Some(d) => {
                if !domain_name(d) {
                    return Err(DKIMError::SignatureSyntaxError(Tag::Domain));
                }
                copy_range(d, 0, d.len())
            },
        };
        let signed_headers = match find_tag(tags, text("h")) {
            None => {
                return Err(DKIMError::SignatureSyntaxError(Tag::SignedHeaders));
            },
            Some(h) => match read_names(h) {
                None => {
                    return Err(DKIMError::SignatureSyntaxError(Tag::SignedHeaders));
                },
                Some(names) => names,
            },
        };
        let body_length = match read_optional_number(tags, text("l")) {
            None => {
                return Err(DKIMError::SignatureSyntaxError(Tag::BodyLength));
            },
            Some(l) => l,
        };
        let selector = match find_tag(tags, text("s")) {
            None => {
                return Err(DKIMError::SignatureSyntaxError(Tag::Selector));
            },
            Some(s) => {
                if !domain_name(s) {
                    return Err(DKIMError::SignatureSyntaxError(Tag::Selector));
                }
                copy_range(s, 0, s.len())
            },
        };
        let timestamp = match read_optional_number(tags, text("t")) {
            None => {
                return Err(DKIMError::SignatureSyntaxError(Tag::Timestamp));
            },
            Some(t) => t,
        };
        let expiration = match read_optional_number(tags, text("x")) {
            None => {
                return Err(DKIMError::SignatureSyntaxError(Tag::Expiration));
            },
            Some(x) => x,
        };
        proof {
            assert(domain@ =~= tag_value(tag_views(tags@), ascii("d"@))->Some_0);
            assert(selector@ =~= tag_value(tag_views(tags@), ascii("s"@))->Some_0);
        }
        Ok(
            SignatureTags {
                algorithm,
                header_canonicalization: types.0,
                body_canonicalization: types.1,
                domain,
                selector,
                signed_headers,
                body_hash,
                signature,
                body_length,
                timestamp,
                expiration,
            },
        )
    }

    /// Reads the tags from the value of a `DKIM-Signature` header.
    pub fn parse(value: &[u8]) -> (r: Result<SignatureTags, DKIMError>)
        ensures
            match r {
                Ok(s) => parse_signature(value@) == Ok::<SignatureView, DKIMError>(s@)
                    && signature_wf(s@),
                Err(e) => parse_signature(value@) == Err::<SignatureView, DKIMError>(e),
            },
    {
        match read_tag_list(value) {
            None => Err(DKIMError::SignatureSyntaxError(Tag::List)),
            Some(tags) => SignatureTags::from_tags(&tags),
        }
    }
}

/// What holds of every signature that was read: domain and selector are
/// domain names, the body hash has the length of a digest of the algorithm,
/// the signature is not empty.
pub open spec fn signature_wf(s: SignatureView) -> bool {
    &&& is_domain(s.domain)
    &&& is_domain(s.selector)
    &&& s.body_hash.len() == s.algorithm.hash().digest_len()
    &&& s.signature.len() > 0
}

} // verus!
