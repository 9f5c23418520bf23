//! DKIM verification of raw e-mail messages, and the polling decisions of a
//! mailbox relay that forwards what it finds.
//!
//! The verifier splits a message into headers and body, reads every
//! `DKIM-Signature` header, canonicalizes body and signed headers as the
//! signature declares, compares digests, fetches the signer's key through a
//! [`dns::Lookup`] and checks the signature. Its answer is a
//! [`result::DKIMResult`]: `pass`, `fail` with a reason, or `neutral`.

pub mod base64;
pub mod bytes;
pub mod canonicalization;
pub mod crypto;
pub mod dns;
pub mod errors;
pub mod idempotence;
pub mod key;
pub mod laws;
pub mod message;
pub mod relay;
pub mod result;
pub mod signature;
pub mod tags;
pub mod verify;

pub use dns::Lookup;
pub use errors::DKIMError;
pub use result::DKIMResult;
pub use verify::{verify_email_at, verify_email_with_resolver};
