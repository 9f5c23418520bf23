//! The verification of a message: one attempt for each signature header,
//! and the one outcome that the attempts give.

use vstd::prelude::*;
use crate::bytes::{
    ascii, bytes_eq, bytes_eq_ignore_case, copy_range, eq_ignore_case, find_from, index_of,
    is_text, join, join_on, split, split_on, text, trim, trimmed, views, CR, EQUALS, LF,
    SEMICOLON,
};
use crate::canonicalization::{
    canonical_body, canonical_header, canonicalize_body, canonicalize_header, Type,
};
use crate::crypto::{digest, digest_of, signature_valid, verify_signature};
use crate::dns::Lookup;
use crate::errors::DKIMError;
use crate::key::{answer_of, key_from_answer, query_name, Answer, PublicKeyRecord};
use crate::message::{
    header_views, indices_named, nth_from_end, parse_message, Header, HeaderView, MessageView,
    RawMessage,
};
use crate::result::{DKIMResult, Outcome};
use crate::signature::{parse_signature, SignatureTags, SignatureView};

verus! {

/// How one attempt ends: with the canonicalizations of the signature that
/// verified, for headers and for the body, or with the reason it did not.
pub type Attempt = Result<(Type, Type), DKIMError>;

/// The name of the header that holds a signature.
pub open spec fn signature_header_name() -> Seq<u8> {
    ascii("dkim-signature"@)
}

/// What is hashed of the body: its canonical form, cut to the length that
/// `l=` gives where that is shorter.
pub open spec fn hashed_body(body: Seq<u8>, sig: SignatureView) -> Seq<u8> {
    let canonical = canonical_body(sig.body_canonicalization, body);
    match sig.body_length {
        Some(l) => if l < canonical.len() {
            canonical.take(l as int)
        } else {
            canonical
        },
        None => canonical,
    }
}

/// The number of names in `names` that are `wanted`, up to case.
pub open spec fn count_named(names: Seq<Seq<u8>>, wanted: Seq<u8>) -> nat
    decreases names.len(),
{
    if names.len() == 0 {
        0
    } else {
        count_named(names.drop_last(), wanted) + if eq_ignore_case(names.last(), wanted) {
            1nat
        } else {
            0nat
        }
    }
}

/// The header that the entry `j` of `names` selects: the entries of one
/// name take the headers of that name from the bottom of the message
/// upwards, each header once. An entry for which no header is left selects
/// nothing.
pub open spec fn selected(headers: Seq<HeaderView>, names: Seq<Seq<u8>>, j: int) -> Option<int> {
    nth_from_end(headers, names[j], count_named(names.take(j), names[j]))
}

/// What the entry `j` of `names` adds to the signed data: the canonical
/// form of the header it selects, or nothing.
pub open spec fn signed_entry(ty: Type, headers: Seq<HeaderView>, names: Seq<Seq<u8>>, j: int) -> Seq<
    u8,
> {
    match selected(headers, names, j) {
        Some(i) => canonical_header(ty, headers[i].name, headers[i].value),
        None => Seq::empty(),
    }
}

/// What the first `n` entries of `names` add to the signed data, in the
/// order of the entries.
pub open spec fn signed_entries(ty: Type, headers: Seq<HeaderView>, names: Seq<Seq<u8>>, n: int) -> Seq<
    u8,
>
    decreases n,
{
    if n <= 0 {
        Seq::empty()
    } else {
        signed_entries(ty, headers, names, n - 1) + signed_entry(ty, headers, names, n - 1)
    }
}

/// A piece of a tag list with the value taken out if the piece is the tag
/// `b`: all that follows the `=` goes.
pub open spec fn without_signature(piece: Seq<u8>) -> Seq<u8> {
    let k = index_of(piece, EQUALS);
    if 0 <= k < piece.len() && trim(piece.take(k), true) == ascii("b"@) {
        piece.take(k + 1)
    } else {
        piece
    }
}

/// The value of a signature header with the value of `b=` taken out.
pub open spec fn unsigned_value(value: Seq<u8>) -> Seq<u8> {
    let pieces = split_on(value, SEMICOLON);
    join_on(Seq::new(pieces.len(), |i: int| without_signature(pieces[i])), SEMICOLON)
}

/// `s` without the line terminator at its end, CRLF or LF.
pub open spec fn without_terminator(s: Seq<u8>) -> Seq<u8> {
    if s.len() >= 2 && s[s.len() - 2] == CR && s[s.len() - 1] == LF {
        s.take(s.len() - 2)
    } else if s.len() >= 1 && s[s.len() - 1] == LF {
        s.take(s.len() - 1)
    } else {
        s
    }
}

/// What the signature header itself adds to the signed data: its canonical
/// form with the value of `b=` taken out and without the line terminator at
/// the end.
pub open spec fn signature_entry(ty: Type, header: HeaderView) -> Seq<u8> {
    without_terminator(canonical_header(ty, header.name, unsigned_value(header.value)))
}

/// The bytes that the signature signs: the selected headers in the order of
/// `h=`, then the signature header.
pub open spec fn signed_data(headers: Seq<HeaderView>, header: HeaderView, sig: SignatureView) -> Seq<
    u8,
> {
    signed_entries(
        sig.header_canonicalization,
        headers,
        sig.signed_headers,
        sig.signed_headers.len() as int,
    ) + signature_entry(sig.header_canonicalization, header)
}

/// Whether the digest of the body is the one the signature declares.
pub open spec fn body_hash_matches(body: Seq<u8>, sig: SignatureView) -> bool {
    digest_of(sig.algorithm.hash(), hashed_body(body, sig)) == sig.body_hash
}

/// The first part of an attempt, which needs no key: the tags are read,
/// and the digest of the body is compared with the one they declare.
pub open spec fn prepared(msg: MessageView, header: HeaderView) -> Result<SignatureView, DKIMError> {
    match parse_signature(header.value) {
        Err(e) => Err(e),
        Ok(sig) => if body_hash_matches(msg.body, sig) {
            Ok(sig)
        } else {
            Err(DKIMError::BodyHashMismatch)
        },
    }
}

/// How an attempt ends once the check of the signature has answered
/// `valid`: an invalid signature fails, then one that has expired.
pub open spec fn settled(sig: SignatureView, valid: bool, now: u64) -> Attempt {
    if !valid {
        Err(DKIMError::SignatureVerificationFailed)
    } else if sig.expiration is Some && now > sig.expiration->Some_0 {
        Err(DKIMError::SignatureExpired)
    } else {
        Ok((sig.header_canonicalization, sig.body_canonicalization))
    }
}

/// The second part of an attempt: the key is read from the answer of the
/// resolver, must be of the family of the algorithm, and the signature is
/// checked under it.
pub open spec fn concluded(
    msg: MessageView,
    header: HeaderView,
    sig: SignatureView,
    answer: Answer,
    now: u64,
) -> Attempt {
    match key_from_answer(answer) {
        Err(e) => Err(e),
        Ok(key) => if key.key_type != sig.algorithm.key_type() {
            Err(DKIMError::KeyTypeMismatch)
        } else {
            settled(
                sig,
                signature_valid(
                    sig.algorithm,
                    key.public_key,
                    signed_data(msg.headers, header, sig),
                    sig.signature,
                ),
                now,
            )
        },
    }
}

/// How the attempt on one signature header ends, given what the resolver
/// answers and the time.
#[verifier::opaque]
pub open spec fn attempt(msg: MessageView, header: HeaderView, answer: Answer, now: u64) -> Attempt {
    match prepared(msg, header) {
        Err(e) => Err(e),
        Ok(sig) => concluded(msg, header, sig, answer, now),
    }
}

/// The first attempt that verified.
pub open spec fn first_pass(attempts: Seq<Attempt>) -> Option<(Type, Type)>
    decreases attempts.len(),
{
    if attempts.len() == 0 {
        None
    } else {
        match attempts[0] {
            Ok(types) => Some(types),
            Err(_) => first_pass(attempts.skip(1)),
        }
    }
}

/// The outcome that a sequence of attempts gives: neutral without
/// attempts; pass with the first attempt that verified; else fail, with the
/// reason of the first attempt.
pub open spec fn reduce(attempts: Seq<Attempt>) -> Outcome {
    if attempts.len() == 0 {
        Outcome::neutral()
    } else {
        match first_pass(attempts) {
            Some(types) => Outcome::pass(types.0, types.1),
            None => Outcome::fail(attempts[0]->Err_0),
        }
    }
}

/// The attempts on the signature headers of a message, in the order of the
/// headers, where `answers` holds for each what the resolver answers.
pub open spec fn attempts_of(msg: MessageView, answers: Seq<Answer>, now: u64) -> Seq<Attempt> {
    let found = indices_named(msg.headers, signature_header_name());
    Seq::new(found.len(), |k: int| attempt(msg, msg.headers[found[k]], answers[k], now))
}

/// The outcome of a message.
pub open spec fn outcome(msg: MessageView, answers: Seq<Answer>, now: u64) -> Outcome {
    reduce(attempts_of(msg, answers, now))
}

/// An attempt that verified after attempts that failed is the first pass.
pub proof fn lemma_first_pass(attempts: Seq<Attempt>, k: int)
    requires
        0 <= k < attempts.len(),
        attempts[k] is Ok,
        forall|j: int| 0 <= j < k ==> attempts[j] is Err,
    ensures
        first_pass(attempts) == Some(attempts[k]->Ok_0),
    decreases k,
{
    if k > 0 {
        let rest = attempts.skip(1);
        assert forall|j: int| 0 <= j < k - 1 implies rest[j] is Err by {
            assert(rest[j] == attempts[j + 1]);
        }
        lemma_first_pass(rest, k - 1);
    }
}

/// Where every attempt failed there is no pass.
pub proof fn lemma_no_pass(attempts: Seq<Attempt>)
    requires
        forall|j: int| 0 <= j < attempts.len() ==> attempts[j] is Err,
    ensures
        first_pass(attempts) is None,
    decreases attempts.len(),
{
    if attempts.len() > 0 {
        let rest = attempts.skip(1);
        assert forall|j: int| 0 <= j < rest.len() implies rest[j] is Err by {
            assert(rest[j] == attempts[j + 1]);
        }
        lemma_no_pass(rest);
    }
}

/// The body as it is hashed for `sig`.
pub fn body_to_hash(body: &[u8], sig: &SignatureTags) -> (r: Vec<u8>)
    ensures
        r@ == hashed_body(body@, sig@),
{
    let mut canonical = canonicalize_body(sig.body_canonicalization(), body);
    match sig.body_length() {
        Some(l) => {
            if l < canonical.len() as u64 {
                canonical.truncate(l as usize);
            }
        },
        None => {},
    }
    canonical
}

/// Compares the digest that was computed of the body with the one that
/// the signature declares.
pub fn check_body_hash(sig: &SignatureTags, computed: &[u8]) -> (r: Result<(), DKIMError>)
    ensures
        computed@ == sig@.body_hash ==> r is Ok,
        computed@ != sig@.body_hash ==> r == Err::<(), DKIMError>(DKIMError::BodyHashMismatch),
{
    if bytes_eq(computed, sig.body_hash()) {
        Ok(())
    } else {
        Err(DKIMError::BodyHashMismatch)
    }
}

/// The end of an attempt, once the check of the signature has answered.
pub fn settle(sig: &SignatureTags, valid: bool, now: u64) -> (r: Attempt)
    ensures
        r == settled(sig@, valid, now),
{
    if !valid {
        return Err(DKIMError::SignatureVerificationFailed);
    }
    match sig.expiration() {
        Some(x) => {
            if now > x {
                return Err(DKIMError::SignatureExpired);
            }
        },
        None => {},
    }
    Ok((sig.header_canonicalization(), sig.body_canonicalization()))
}

fn blank_signature(piece: &[u8]) -> (r: Vec<u8>)
    ensures
        r@ == without_signature(piece@),
{
    proof {
        reveal_strlit("b");
    }
    assert(piece@.skip(0) =~= piece@);
    let k = find_from(piece, 0, EQUALS);
    if k < piece.len() {
        let left = copy_range(piece, 0, k);
        assert(left@ =~= piece@.take(k as int));
        let name = trimmed(left.as_slice(), true);
        if is_text(name.as_slice(), "b") {
            let kept = copy_range(piece, 0, k + 1);
            assert(kept@ =~= piece@.take(k + 1));
            return kept;
        }
    }
    let all = copy_range(piece, 0, piece.len());
    assert(all@ =~= piece@);
    all
}

/// The value of a signature header with the value of `b=` taken out.
pub fn strip_signature(value: &[u8]) -> (r: Vec<u8>)
    ensures
        r@ == unsigned_value(value@),
{
    let pieces = split(value, SEMICOLON);
    let ghost all = split_on(value@, SEMICOLON);
    let mut out: Vec<Vec<u8>> = Vec::new();
    let mut i: usize = 0;
    while i < pieces.len()
        invariant
            i <= pieces.len(),
            views(pieces@) == all,
            out@.len() == i,
            forall|j: int| 0 <= j < i ==> (#[trigger] out@[j])@ == without_signature(all[j]),
        decreases pieces.len() - i,
    {
        assert(views(pieces@)[i as int] == pieces@[i as int]@);
        let piece = blank_signature(pieces[i].as_slice());
        out.push(piece);
        i += 1;
    }
    proof {
        let want = Seq::new(all.len(), |i: int| without_signature(all[i]));
        assert(views(out@) =~= want);
    }
    join(&out, SEMICOLON)
}

fn drop_terminator(s: &mut Vec<u8>)
    ensures
        final(s)@ == without_terminator(old(s)@),
{
    let n = s.len();
    if n >= 2 && s[n - 2] == CR && s[n - 1] == LF {
        s.truncate(n - 2);
    } else if n >= 1 && s[n - 1] == LF {
        s.truncate(n - 1);
    }
}

fn count_before(names: &Vec<Vec<u8>>, j: usize) -> (r: usize)
    requires
        j < names.len(),
    ensures
        r == count_named(views(names@).take(j as int), names@[j as int]@),
{
    let ghost all = views(names@);
    let mut count: usize = 0;
    let mut i: usize = 0;
    assert(all.take(j as int).take(0) =~= Seq::<Seq<u8>>::empty());
    while i < j
        invariant
            i <= j < names.len(),
            all == views(names@),
            count <= i,
            count == count_named(all.take(j as int).take(i as int), names@[j as int]@),
        decreases j - i,
    {
        proof {
            let part = all.take(j as int);
            assert(part.take(i + 1).drop_last() =~= part.take(i as int));
            assert(part.take(i + 1).last() == names@[i as int]@);
        }
        if bytes_eq_ignore_case(names[i].as_slice(), names[j].as_slice()) {
            count += 1;
        }
        i += 1;
    }
    assert(all.take(j as int).take(j as int) =~= all.take(j as int));
    count
}

/// The bytes that `sig`, read from `header`, signs in `msg`.
pub fn data_to_sign(msg: &RawMessage, header: &Header, sig: &SignatureTags) -> (r: Vec<u8>)
    ensures
        r@ == signed_data(msg@.headers, header@, sig@),
{
    let ty = sig.header_canonicalization();
    let names = sig.signed_headers();
    let headers = msg.headers();
    let mut out: Vec<u8> = Vec::new();
    let mut j: usize = 0;
    while j < names.len()
        invariant
            j <= names.len(),
            ty == sig@.header_canonicalization,
            views(names@) == sig@.signed_headers,
            header_views(headers@) == msg@.headers,
            out@ == signed_entries(ty, msg@.headers, sig@.signed_headers, j as int),
        decreases names.len() - j,
    {
        let skip = count_before(names, j);
        proof {
            assert(views(names@)[j as int] == names@[j as int]@);
        }
        match msg.find_from_end(names[j].as_slice(), skip) {
            Some(i) => {
                proof {
                    assert(header_views(headers@)[i as int] == headers@[i as int]@);
                }
                let mut entry = canonicalize_header(ty, headers[i].name(), headers[i].value());
                out.append(&mut entry);
            },
            None => {
                assert(out@ + Seq::<u8>::empty() =~= out@);
            },
        }
        j += 1;
    }
    let unsigned = strip_signature(header.value());
    let mut last = canonicalize_header(ty, header.name(), unsigned.as_slice());
    drop_terminator(&mut last);
    out.append(&mut last);
    out
}

/// The first part of an attempt: reads the tags of the signature in
/// `header` and compares the digest of the body of `msg` with the one
/// declared.
pub fn prepare_attempt(msg: &RawMessage, header: &Header) -> (r: Result<SignatureTags, DKIMError>)
    ensures
        match r {
            Ok(sig) => prepared(msg@, header@) == Ok::<SignatureView, DKIMError>(sig@),
            Err(e) => prepared(msg@, header@) == Err::<SignatureView, DKIMError>(e),
        },
{
    let sig = match SignatureTags::parse(header.value()) {
        Err(e) => {
            return Err(e);
        },
        Ok(sig) => sig,
    };
    let body = body_to_hash(msg.body(), &sig);
    let computed = digest(sig.algorithm().hash_algorithm(), body.as_slice());
    match check_body_hash(&sig, computed.as_slice()) {
        Err(e) => Err(e),
        Ok(_) => Ok(sig),
    }
}

/// The second part of an attempt: reads the key from the answer of the
/// resolver and checks the signature under it.
pub fn conclude_attempt(
    msg: &RawMessage,
    header: &Header,
    sig: &SignatureTags,
    answer: &Result<Vec<String>, DKIMError>,
    now: u64,
) -> (r: Attempt)
    ensures
        r == concluded(msg@, header@, sig@, answer_of(*answer), now),
{
    let key = match PublicKeyRecord::from_answer(answer) {
        Err(e) => {
            return Err(e);
        },
        Ok(key) => key,
    };
    if key.key_type() != sig.algorithm().key_family() {
        return Err(DKIMError::KeyTypeMismatch);
    }
    let data = data_to_sign(msg, header, sig);
    let valid = verify_signature(sig.algorithm(), key.public_key(), data.as_slice(), sig.signature());
    settle(sig, valid, now)
}

impl DKIMResult {
    /// The outcome that a sequence of attempts gives: neutral without
    /// attempts; pass with the first attempt that verified; else fail, with
    /// the reason of the first attempt.
    pub fn from_attempts(attempts: &Vec<Attempt>) -> (r: DKIMResult)
        ensures
            r@ == reduce(attempts@),
    {
        if attempts.len() == 0 {
            return DKIMResult::neutral();
        }
        let mut i: usize = 0;
        while i < attempts.len()
            invariant
                i <= attempts.len(),
                forall|j: int| 0 <= j < i ==> attempts@[j] is Err,
            decreases attempts.len() - i,
        {
            match attempts[i] {
                Ok((header, body)) => {
                    proof {
                        lemma_first_pass(attempts@, i as int);
                    }
                    return DKIMResult::pass(header, body);
                },
                Err(_) => {},
            }
            i += 1;
        }
        proof {
            lemma_no_pass(attempts@);
        }
        match attempts[0] {
            Err(e) => DKIMResult::fail(e),
            Ok(_) => DKIMResult::neutral(),
        }
    }
}

/// The system clock, in seconds since the first of January 1970: what
/// `SystemTime::now` of the standard library gives, or zero where the clock
/// stands before that day. Nothing is claimed of the result.
#[verifier::external_body]
fn unix_time() -> u64 {
    match std::time::SystemTime::now().duration_since(std::time::UNIX_EPOCH) {
        Ok(elapsed) => elapsed.as_secs(),
        Err(_) => 0,
    }
}

/// The outcome where the attempt `k` verified and those before it failed.
proof fn lemma_outcome_pass(msg: MessageView, answers: Seq<Answer>, now: u64, k: int)
    requires
        0 <= k < indices_named(msg.headers, signature_header_name()).len(),
        forall|j: int|
            0 <= j < k ==> (#[trigger] attempt(
                msg,
                msg.headers[indices_named(msg.headers, signature_header_name())[j]],
                answers[j],
                now,
            )) is Err,
        attempt(
            msg,
            msg.headers[indices_named(msg.headers, signature_header_name())[k]],
            answers[k],
            now,
        ) is Ok,
    ensures
        ({
            let types = attempt(
                msg,
                msg.headers[indices_named(msg.headers, signature_header_name())[k]],
                answers[k],
                now,
            )->Ok_0;
            outcome(msg, answers, now) == Outcome::pass(types.0, types.1)
        }),
{
    let found = indices_named(msg.headers, signature_header_name());
    let all = attempts_of(msg, answers, now);
    assert(all[k] == attempt(msg, msg.headers[found[k]], answers[k], now));
    assert forall|j: int| 0 <= j < k implies all[j] is Err by {
        assert(all[j] == attempt(msg, msg.headers[found[j]], answers[j], now));
    }
    lemma_first_pass(all, k);
}

/// The outcome where every attempt failed.
proof fn lemma_outcome_fail(msg: MessageView, answers: Seq<Answer>, now: u64)
    requires
        forall|j: int|
            0 <= j < indices_named(msg.headers, signature_header_name()).len() ==> (
            #[trigger] attempt(
                msg,
                msg.headers[indices_named(msg.headers, signature_header_name())[j]],
                answers[j],
                now,
            )) is Err,
    ensures
        outcome(msg, answers, now) == if indices_named(
            msg.headers,
            signature_header_name(),
        ).len() == 0 {
            Outcome::neutral()
        } else {
            Outcome::fail(
                attempt(
                    msg,
                    msg.headers[indices_named(msg.headers, signature_header_name())[0]],
                    answers[0],
                    now,
                )->Err_0,
            )
        },
{
    let found = indices_named(msg.headers, signature_header_name());
    let all = attempts_of(msg, answers, now);
    assert forall|j: int| 0 <= j < all.len() implies all[j] is Err by {
        assert(all[j] == attempt(msg, msg.headers[found[j]], answers[j], now));
    }
    lemma_no_pass(all);
    if found.len() > 0 {
        assert(all[0] == attempt(msg, msg.headers[found[0]], answers[0], now));
    }
}

/// One attempt, with the resolver asked where the attempt gets that far.
fn try_header<R: Lookup>(msg: &RawMessage, header: &Header, resolver: &R, now: u64) -> (r: (
    Attempt,
    Ghost<Answer>,
))
    ensures
        r.0 == attempt(msg@, header@, r.1@, now),
{
    reveal(attempt);
    match prepare_attempt(msg, header) {
        Err(e) => (Err(e), Ghost(Err(DKIMError::KeyNotFound))),
        Ok(sig) => {
            let answer = match query_name(sig.selector(), sig.domain()) {
                Some(name) => resolver.lookup_txt(name.as_str()),
                None => Err(DKIMError::KeyNotFound),
            };
            let ended = conclude_attempt(msg, header, &sig, &answer, now);
            (ended, Ghost(answer_of(answer)))
        },
    }
}

/// Verifies the message `email` at the time `now`, in seconds since the
/// first of January 1970.
///
/// Every signature header is tried, in the order of the headers, until one
/// verifies. The resolver is asked once for each signature whose tags and
/// body hash are in order, for the name that [`query_name`] gives. The
/// outcome is the one that [`outcome`] gives for the message, the time and
/// what the resolver answered.
pub fn verify_email_at<R: Lookup>(email: &[u8], resolver: &R, now: u64) -> (r: DKIMResult)
    ensures
        exists|answers: Seq<Answer>|
            answers.len() == indices_named(
                parse_message(email@).headers,
                signature_header_name(),
            ).len() && r@ == #[trigger] outcome(parse_message(email@), answers, now),
        indices_named(parse_message(email@).headers, signature_header_name()).len() == 0 ==> r@
            == Outcome::neutral(),
        r@.wf(),
{
    proof {
        reveal_strlit("dkim-signature");
    }
    let msg = RawMessage::parse(email);
    let found = msg.headers_named(text("dkim-signature"));
    let headers = msg.headers();
    let n = found.len();
    let ghost filler: Answer = Err(DKIMError::KeyNotFound);
    let ghost mut answers: Seq<Answer> = Seq::empty();
    let ghost wanted = indices_named(msg@.headers, signature_header_name());
    let mut first_error: Option<DKIMError> = None;
    let mut k: usize = 0;
    while k < n
        invariant
            k <= n,
            n == found@.len(),
            n == wanted.len(),
            wanted == indices_named(msg@.headers, signature_header_name()),
            msg@ == parse_message(email@),
            forall|i: int| 0 <= i < n ==> found@[i] == wanted[i],
            forall|i: int| 0 <= i < n ==> found@[i] < msg@.headers.len(),
            header_views(headers@) == msg@.headers,
            answers.len() == k,
            forall|i: int|
                0 <= i < k ==> (#[trigger] attempt(
                    msg@,
                    msg@.headers[wanted[i]],
                    answers[i],
                    now,
                )) is Err,
            k == 0 ==> first_error is None,
            k > 0 ==> first_error == Some(
                attempt(msg@, msg@.headers[wanted[0]], answers[0], now)->Err_0,
            ),
        decreases n - k,
    {
        let header = &headers[found[k]];
        proof {
            assert(header_views(headers@)[found@[k as int] as int] == header@);
            assert(header@ == msg@.headers[wanted[k as int]]);
        }
        let (ended, answer) = try_header(&msg, header, resolver, now);
        let ghost before = answers;
        proof {
            answers = before.push(answer@);
            assert forall|i: int| 0 <= i < k implies (#[trigger] attempt(
                msg@,
                msg@.headers[wanted[i]],
                answers[i],
                now,
            )) is Err by {
                assert(answers[i] == before[i]);
            }
            assert(answers[k as int] == answer@);
        }
        match ended {
            Ok((header_type, body_type)) => {
                let ghost all = Seq::new(
                    n as nat,
                    |i: int|
                        if i <= k {
                            answers[i]
                        } else {
                            filler
                        },
                );
                proof {
                    assert forall|j: int| 0 <= j < k implies (#[trigger] attempt(
                        msg@,
                        msg@.headers[wanted[j]],
                        all[j],
                        now,
                    )) is Err by {
                        assert(all[j] == answers[j]);
                    }
                    assert(all[k as int] == answer@);
                    lemma_outcome_pass(msg@, all, now, k as int);
                }
                let r = DKIMResult::pass(header_type, body_type);
                assert(r@ == outcome(parse_message(email@), all, now));
                return r;
            },
            Err(e) => {
                if k == 0 {
                    first_error = Some(e);
                }
            },
        }
        k += 1;
    }
    proof {
        lemma_outcome_fail(msg@, answers, now);
    }
    let r = match first_error {
        Some(e) => DKIMResult::fail(e),
        None => DKIMResult::neutral(),
    };
    assert(r@ == outcome(parse_message(email@), answers, now));
    r
}

/// Verifies the message `email` at the time of the system clock: the
/// outcome is that of [`verify_email_at`] for some time.
pub fn verify_email_with_resolver<R: Lookup>(email: &[u8], resolver: &R) -> (r: DKIMResult)
    ensures
        exists|answers: Seq<Answer>, now: u64|
            answers.len() == indices_named(
                parse_message(email@).headers,
                signature_header_name(),
            ).len() && r@ == #[trigger] outcome(parse_message(email@), answers, now),
        indices_named(parse_message(email@).headers, signature_header_name()).len() == 0 ==> r@
            == Outcome::neutral(),
        r@.wf(),
{
    let now = unix_time();
    verify_email_at(email, resolver, now)
}

} // verus!
