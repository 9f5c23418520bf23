//! The public key record of a signer: where it is asked for, and how the
//! answer is read.

use vstd::prelude::*;
use vstd::utf8::encode_utf8;
use crate::base64::decode_bytes;
use crate::bytes::{
    ascii, copy_range, is_text, split_on, split_trimmed, text, trim_all, views, COLON,
};
use crate::errors::DKIMError;
use crate::signature::{blob, domain_name, is_domain, KeyType};
use crate::tags::{
    find_tag, parse_tag_list, read_tag_list, remove_spaces, tag_value, tag_views, without_spaces,
    TagSpec, TagView,
};

verus! {

/// A public key record, read and checked.
#[derive(Debug)]
pub struct PublicKeyRecord {
    key_type: KeyType,
    public_key: Vec<u8>,
    services: Option<Vec<Vec<u8>>>,
    flags: Option<Vec<Vec<u8>>>,
}

/// What a [`PublicKeyRecord`] holds.
pub struct KeyView {
    /// `k=`; RSA where the tag is absent.
    pub key_type: KeyType,
    /// `p=`, decoded.
    pub public_key: Seq<u8>,
    /// `s=`: the service types the key is for, where the record names any.
    pub services: Option<Seq<Seq<u8>>>,
    /// `t=`: the flags, where the record has any.
    pub flags: Option<Seq<Seq<u8>>>,
}

/// What a resolver answered, with every string as its bytes.
pub type Answer = Result<Seq<Seq<u8>>, DKIMError>;

/// The strings as bytes.
pub open spec fn string_bytes(strings: Seq<String>) -> Seq<Seq<u8>> {
    Seq::new(strings.len(), |i: int| encode_utf8(strings[i]@))
}

/// The answer of a resolver, with every string as its bytes.
pub open spec fn answer_of(answer: Result<Vec<String>, DKIMError>) -> Answer {
    match answer {
        Ok(strings) => Ok(string_bytes(strings@)),
        Err(e) => Err(e),
    }
}

impl View for PublicKeyRecord {
    type V = KeyView;

    closed spec fn view(&self) -> KeyView {
        KeyView {
            key_type: self.key_type,
            public_key: self.public_key@,
            services: match self.services {
                Some(list) => Some(views(list@)),
                None => None,
            },
            flags: match self.flags {
                Some(list) => Some(views(list@)),
                None => None,
            },
        }
    }
}

/// The characters of ASCII bytes.
pub open spec fn chars(bytes: Seq<u8>) -> Seq<char> {
    Seq::new(bytes.len(), |i: int| bytes[i] as char)
}

/// The name under which the key of `selector` and `domain` is published.
pub open spec fn query_name_of(selector: Seq<u8>, domain: Seq<u8>) -> Seq<char> {
    chars(selector + ascii("._domainkey."@) + domain)
}

/// The strings of a record one after the other: a record comes in pieces
/// of at most 255 bytes, and this puts it together again.
pub open spec fn concat(strings: Seq<Seq<u8>>) -> Seq<u8>
    decreases strings.len(),
{
    if strings.len() == 0 {
        Seq::empty()
    } else {
        concat(strings.drop_last()) + strings.last()
    }
}

/// The family of keys that a value of `k=` names.
pub open spec fn key_type_named(v: Seq<u8>) -> Option<KeyType> {
    if v == ascii("rsa"@) {
        Some(KeyType::Rsa)
    } else if v == ascii("ed25519"@) {
        Some(KeyType::Ed25519)
    } else {
        None
    }
}

/// The items of an optional list with colons between them.
pub open spec fn optional_list(v: Option<Seq<u8>>) -> Option<Seq<Seq<u8>>> {
    match v {
        Some(list) => Some(trim_all(split_on(list, COLON))),
        None => None,
    }
}

/// The key that a list of tags describes, or the first fault found.
///
/// - `p` absent or empty: the key is revoked. This is looked at first.
/// - `v`, where present, is `DKIM1`, and `k`, where present, names a known
///   family of keys; else the record is not of the expected type.
/// - `p` that is no base64: there is no usable key.
pub open spec fn record_of(tags: Seq<TagView>) -> Result<KeyView, DKIMError> {
    let p = tag_value(tags, ascii("p"@));
    let v = tag_value(tags, ascii("v"@));
    let k = tag_value(tags, ascii("k"@));
    if p is None || remove_spaces(p->Some_0).len() == 0 {
        Err(DKIMError::KeyRevoked)
    } else if v is Some && v->Some_0 != ascii("DKIM1"@) {
        Err(DKIMError::KeyTypeMismatch)
    } else if k is Some && key_type_named(k->Some_0) is None {
        Err(DKIMError::KeyTypeMismatch)
    } else if blob(p->Some_0) is None {
        Err(DKIMError::KeyNotFound)
    } else {
        Ok(
            KeyView {
                key_type: if k is Some {
                    key_type_named(k->Some_0)->Some_0
                } else {
                    KeyType::Rsa
                },
                public_key: blob(p->Some_0)->Some_0,
                services: optional_list(tag_value(tags, ascii("s"@))),
                flags: optional_list(tag_value(tags, ascii("t"@))),
            },
        )
    }
}

/// The key that the text of a record describes, or the first fault found. A
/// text that is no list of tags holds no usable key.
pub open spec fn parse_key_record(txt: Seq<u8>) -> Result<KeyView, DKIMError> {
    match parse_tag_list(txt) {
        None => Err(DKIMError::KeyNotFound),
        Some(tags) => record_of(tags),
    }
}

/// The key that the answer of a resolver gives, or the first fault found.
/// An error of the resolver is passed on as it is. An answer without
/// strings is no record. The strings of an answer are read as one text.
pub open spec fn key_from_answer(answer: Answer) -> Result<KeyView, DKIMError> {
    match answer {
        Err(e) => Err(e),
        Ok(strings) => if strings.len() == 0 {
            Err(DKIMError::KeyNotFound)
        } else {
            parse_key_record(concat(strings))
        },
    }
}

/// `String::from_utf8` of the standard library, on ASCII bytes: the string
/// has one character for each byte, with the byte's code.
#[verifier::external_body]
fn ascii_string(bytes: Vec<u8>) -> (r: String)
    requires
        forall|i: int| 0 <= i < bytes@.len() ==> bytes@[i] < 128,
    ensures
        r@ == chars(bytes@),
{
    match String::from_utf8(bytes) {
        Ok(s) => s,
        Err(_) => String::new(),
    }
}

/// The name under which the key of `selector` and `domain` is published:
/// the selector, `._domainkey.`, the domain. `None` where one of the two is
/// no domain name.
pub fn query_name(selector: &[u8], domain: &[u8]) -> (r: Option<String>)
    ensures
        r is Some <==> is_domain(selector@) && is_domain(domain@),
        r matches Some(name) ==> name@ == query_name_of(selector@, domain@),
{
    if !domain_name(selector) || !domain_name(domain) {
        return None;
    }
    proof {
        reveal_strlit("._domainkey.");
    }
    let middle = text("._domainkey.");
    let mut out = copy_range(selector, 0, selector.len());
    let mut rest = copy_range(middle, 0, middle.len());
    out.append(&mut rest);
    let mut rest = copy_range(domain, 0, domain.len());
    out.append(&mut rest);
    assert(out@ =~= selector@ + ascii("._domainkey."@) + domain@);
    Some(ascii_string(out))
}

fn read_key_type(v: &[u8]) -> (r: Option<KeyType>)
    ensures
        r == key_type_named(v@),
{
    proof {
        reveal_strlit("rsa");
        reveal_strlit("ed25519");
    }
    if is_text(v, "rsa") {
        Some(KeyType::Rsa)
    } else if is_text(v, "ed25519") {
        Some(KeyType::Ed25519)
    } else {
        None
    }
}

fn read_optional_list(v: Option<&[u8]>) -> (r: Option<Vec<Vec<u8>>>)
    ensures
        match r {
            Some(list) => v is Some && optional_list(Some(v->Some_0@)) == Some(views(list@)),
            None => v is None,
        },
{
    match v {
        Some(list) => Some(split_trimmed(list, COLON)),
        None => None,
    }
}

impl PublicKeyRecord {
    /// The family of keys, `k=`.
    pub fn key_type(&self) -> (r: KeyType)
        ensures
            r == self@.key_type,
    {
        self.key_type
    }

    /// The public key, `p=`, decoded.
    pub fn public_key(&self) -> (r: &[u8])
        ensures
            r@ == self@.public_key,
    {
        self.public_key.as_slice()
    }

    /// The service types that the key is for, `s=`.
    pub fn services(&self) -> (r: &Option<Vec<Vec<u8>>>)
        ensures
            match *r {
                Some(list) => self@.services == Some(views(list@)),
                None => self@.services is None,
            },
    {
        &self.services
    }

    /// The flags of the record, `t=`.
    pub fn flags(&self) -> (r: &Option<Vec<Vec<u8>>>)
        ensures
            match *r {
                Some(list) => self@.flags == Some(views(list@)),
                None => self@.flags is None,
            },
    {
        &self.flags
    }

    /// Reads the key from a list of `tag=value` pairs.
    pub fn from_tags(tags: &Vec<TagSpec>) -> (r: Result<PublicKeyRecord, DKIMError>)
        ensures
            match r {
                Ok(k) => record_of(tag_views(tags@)) == Ok::<KeyView, DKIMError>(k@),
                Err(e) => record_of(tag_views(tags@)) == Err::<KeyView, DKIMError>(e),
            },
    {
        proof {
            reveal_strlit("p");
            reveal_strlit("v");
            reveal_strlit("k");
            reveal_strlit("s");
            reveal_strlit("t");
            reveal_strlit("DKIM1");
        }
        let packed = match find_tag(tags, text("p")) {
            None => {
                return Err(DKIMError::KeyRevoked);
            },
            Some(p) => without_spaces(p),
        };
        if packed.len() == 0 {
            return Err(DKIMError::KeyRevoked);
        }
        match find_tag(tags, text("v")) {
            Some(v) => {
                if !is_text(v, "DKIM1") {
                    return Err(DKIMError::KeyTypeMismatch);
                }
            },
            None => {},
        }
        let key_type = match find_tag(tags, text("k")) {
            None => KeyType::Rsa,
            Some(k) => match read_key_type(k) {
                None => {
                    return Err(DKIMError::KeyTypeMismatch);
                },
                Some(key_type) => key_type,
            },
        };
        let public_key = match decode_bytes(packed.as_slice()) {
            None => {
                return Err(DKIMError::KeyNotFound);
            },
            Some(bytes) => bytes,
        };
        let services = read_optional_list(find_tag(tags, text("s")));
        let flags = read_optional_list(find_tag(tags, text("t")));
        Ok(PublicKeyRecord { key_type, public_key, services, flags })
    }

    /// Reads the key from the text of a record.
    pub fn parse(txt: &[u8]) -> (r: Result<PublicKeyRecord, DKIMError>)
        ensures
            match r {
                Ok(k) => parse_key_record(txt@) == Ok::<KeyView, DKIMError>(k@),
                Err(e) => parse_key_record(txt@) == Err::<KeyView, DKIMError>(e),
            },
    {
        match read_tag_list(txt) {
            None => Err(DKIMError::KeyNotFound),
            Some(tags) => PublicKeyRecord::from_tags(&tags),
        }
    }

    /// Reads the key from the answer of a resolver.
    pub fn from_answer(answer: &Result<Vec<String>, DKIMError>) -> (r: Result<
        PublicKeyRecord,
        DKIMError,
    >)
        ensures
            match r {
                Ok(k) => key_from_answer(answer_of(*answer)) == Ok::<KeyView, DKIMError>(k@),
                Err(e) => key_from_answer(answer_of(*answer)) == Err::<KeyView, DKIMError>(e),
            },
    {
        match answer {
            Err(e) => Err(*e),
            Ok(strings) => {
                if strings.len() == 0 {
                    return Err(DKIMError::KeyNotFound);
                }
                let ghost all = string_bytes(strings@);
                let mut txt: Vec<u8> = Vec::new();
                let mut i: usize = 0;
                assert(all.take(0) =~= Seq::<Seq<u8>>::empty());
                while i < strings.len()
                    invariant
                        i <= strings.len(),
                        all == string_bytes(strings@),
                        txt@ == concat(all.take(i as int)),
                    decreases strings.len() - i,
                {
                    let piece = strings[i].as_str().as_bytes();
                    proof {
                        assert(all.take(i + 1).drop_last() =~= all.take(i as int));
                        assert(all.take(i + 1).last() == piece@);
                    }
                    let mut rest = copy_range(piece, 0, piece.len());
                    assert(rest@ =~= piece@);
                    txt.append(&mut rest);
                    i += 1;
                }
                assert(all.take(i as int) =~= all);
                PublicKeyRecord::parse(txt.as_slice())
            },
        }
    }
}

} // verus!
