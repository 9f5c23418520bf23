//! What holds of the outcome of every message, stated over the functions
//! that define it.

use vstd::prelude::*;
use crate::bytes::ascii;
use crate::crypto::signature_valid;
use crate::errors::DKIMError;
use crate::key::{concat, key_from_answer, record_of, Answer};
use crate::message::{indices_named, MessageView};
use crate::result::{Outcome, Summary};
use crate::signature::parse_signature;
use crate::tags::{parse_tag_list, remove_spaces, tag_value, TagView};
use crate::verify::{
    attempt, attempts_of, body_hash_matches, first_pass, lemma_first_pass, lemma_no_pass, outcome,
    reduce,
    signature_header_name, signed_data, Attempt,
};

verus! {

/// A message without a signature header is neutral, whatever the resolver
/// would answer and whatever the time.
pub proof fn lemma_unsigned_is_neutral(msg: MessageView, answers: Seq<Answer>, now: u64)
    requires
        indices_named(msg.headers, signature_header_name()).len() == 0,
    ensures
        outcome(msg, answers, now) == Outcome::neutral(),
{
}

/// A message with signature headers is never neutral: it passes or fails.
pub proof fn lemma_signed_is_judged(msg: MessageView, answers: Seq<Answer>, now: u64)
    requires
        indices_named(msg.headers, signature_header_name()).len() > 0,
    ensures
        outcome(msg, answers, now).summary != Summary::Neutral,
        outcome(msg, answers, now).wf(),
{
}

/// Where any attempt verified, the outcome is pass.
pub proof fn lemma_any_pass_wins(attempts: Seq<Attempt>, k: int)
    requires
        0 <= k < attempts.len(),
        attempts[k] is Ok,
    ensures
        reduce(attempts).summary == Summary::Pass,
    decreases k,
{
    if k > 0 && attempts[0] is Err {
        lemma_any_pass_wins(attempts.skip(1), k - 1);
    }
}

/// The outcome is pass with the canonicalizations of the first attempt that
/// verified, and fail with the reason of the first attempt where none did.
pub proof fn lemma_first_decides(attempts: Seq<Attempt>, k: int)
    requires
        0 <= k < attempts.len(),
        forall|j: int| 0 <= j < k ==> attempts[j] is Err,
    ensures
        attempts[k] matches Ok(types) ==> reduce(attempts) == Outcome::pass(types.0, types.1),
        first_pass(attempts) is None ==> reduce(attempts) == Outcome::fail(attempts[0]->Err_0),
{
    if attempts[k] is Ok {
        lemma_first_pass(attempts, k);
    }
}

/// A message of which one signature verifies passes, whatever comes of its
/// other signature headers: broken ones before it or after it do not
/// matter.
pub proof fn lemma_one_valid_signature_suffices(
    msg: MessageView,
    answers: Seq<Answer>,
    now: u64,
    k: int,
)
    requires
        0 <= k < indices_named(msg.headers, signature_header_name()).len(),
        attempt(
            msg,
            msg.headers[indices_named(msg.headers, signature_header_name())[k]],
            answers[k],
            now,
        ) is Ok,
    ensures
        outcome(msg, answers, now).summary == Summary::Pass,
{
    let found = indices_named(msg.headers, signature_header_name());
    let all = attempts_of(msg, answers, now);
    assert(all[k] == attempt(msg, msg.headers[found[k]], answers[k], now));
    lemma_any_pass_wins(all, k);
}

/// A message with exactly one signature header passes where the tags are in
/// order, the digest of the body is the one declared, the resolver answers
/// with a key of the algorithm's family, the signature is valid under that
/// key, and the signature has not expired. The canonicalizations recorded
/// are those that the signature declares.
pub proof fn lemma_single_valid_signature_passes(msg: MessageView, answers: Seq<Answer>, now: u64)
    requires
        indices_named(msg.headers, signature_header_name()).len() == 1,
        ({
            let header = msg.headers[indices_named(msg.headers, signature_header_name())[0]];
            &&& parse_signature(header.value) matches Ok(sig)
            &&& body_hash_matches(msg.body, sig)
            &&& key_from_answer(answers[0]) matches Ok(key)
            &&& key.key_type == sig.algorithm.key_type()
            &&& signature_valid(
                sig.algorithm,
                key.public_key,
                signed_data(msg.headers, header, sig),
                sig.signature,
            )
            &&& !(sig.expiration is Some && now > sig.expiration->Some_0)
        }),
    ensures
        ({
            let header = msg.headers[indices_named(msg.headers, signature_header_name())[0]];
            let sig = parse_signature(header.value)->Ok_0;
            outcome(msg, answers, now) == Outcome::pass(
                sig.header_canonicalization,
                sig.body_canonicalization,
            )
        }),
{
    reveal(attempt);
    let found = indices_named(msg.headers, signature_header_name());
    let all = attempts_of(msg, answers, now);
    assert(all[0] == attempt(msg, msg.headers[found[0]], answers[0], now));
}

/// A message with exactly one signature header, whose tags are in order,
/// fails with `BodyHashMismatch` where the digest of its body is not the one
/// declared: whatever was done to the body that changed the digest.
pub proof fn lemma_changed_body_fails(msg: MessageView, answers: Seq<Answer>, now: u64)
    requires
        indices_named(msg.headers, signature_header_name()).len() == 1,
        ({
            let header = msg.headers[indices_named(msg.headers, signature_header_name())[0]];
            &&& parse_signature(header.value) matches Ok(sig)
            &&& !body_hash_matches(msg.body, sig)
        }),
    ensures
        outcome(msg, answers, now) == Outcome::fail(DKIMError::BodyHashMismatch),
{
    reveal(attempt);
    let found = indices_named(msg.headers, signature_header_name());
    let all = attempts_of(msg, answers, now);
    assert(all[0] == attempt(msg, msg.headers[found[0]], answers[0], now));
    lemma_no_pass(all);
}

/// A message with exactly one signature header, whose tags, body and key
/// are in order, fails with `SignatureVerificationFailed` where the
/// signature is not valid for the signed data as the message now gives it:
/// whatever was done to a signed header that changed that.
pub proof fn lemma_changed_headers_fail(msg: MessageView, answers: Seq<Answer>, now: u64)
    requires
        indices_named(msg.headers, signature_header_name()).len() == 1,
        ({
            let header = msg.headers[indices_named(msg.headers, signature_header_name())[0]];
            &&& parse_signature(header.value) matches Ok(sig)
            &&& body_hash_matches(msg.body, sig)
            &&& key_from_answer(answers[0]) matches Ok(key)
            &&& key.key_type == sig.algorithm.key_type()
            &&& !signature_valid(
                sig.algorithm,
                key.public_key,
                signed_data(msg.headers, header, sig),
                sig.signature,
            )
        }),
    ensures
        outcome(msg, answers, now) == Outcome::fail(DKIMError::SignatureVerificationFailed),
{
    reveal(attempt);
    let found = indices_named(msg.headers, signature_header_name());
    let all = attempts_of(msg, answers, now);
    assert(all[0] == attempt(msg, msg.headers[found[0]], answers[0], now));
    lemma_no_pass(all);
}

/// A key record without `p=`, or with an empty one, is a revoked key,
/// whatever else the record holds.
pub proof fn lemma_empty_key_is_revoked(tags: Seq<TagView>)
    requires
        tag_value(tags, ascii("p"@)) matches Some(p) ==> remove_spaces(p).len() == 0,
    ensures
        record_of(tags) == Err::<crate::key::KeyView, DKIMError>(DKIMError::KeyRevoked),
{
}

/// A message with exactly one signature header, whose tags and body are in
/// order, fails with `KeyRevoked` where the resolver answers with a record
/// whose `p=` is absent or empty: the answer of the resolver was a success,
/// the outcome is not.
pub proof fn lemma_revoked_key_fails(msg: MessageView, answers: Seq<Answer>, now: u64)
    requires
        indices_named(msg.headers, signature_header_name()).len() == 1,
        ({
            let header = msg.headers[indices_named(msg.headers, signature_header_name())[0]];
            &&& parse_signature(header.value) matches Ok(sig)
            &&& body_hash_matches(msg.body, sig)
        }),
        answers[0] matches Ok(strings) && strings.len() > 0 && (parse_tag_list(
            concat(strings),
        ) matches Some(tags) && (tag_value(tags, ascii("p"@)) matches Some(p) ==> remove_spaces(
            p,
        ).len() == 0)),
    ensures
        outcome(msg, answers, now) == Outcome::fail(DKIMError::KeyRevoked),
{
    reveal(attempt);
    let found = indices_named(msg.headers, signature_header_name());
    let all = attempts_of(msg, answers, now);
    assert(all[0] == attempt(msg, msg.headers[found[0]], answers[0], now));
    lemma_no_pass(all);
}

} // verus!
