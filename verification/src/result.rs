//! The outcome of verifying one message.

use vstd::prelude::*;
use crate::canonicalization::Type;
use crate::errors::DKIMError;

verus! {

/// The three summary values of an outcome.
#[derive(Clone, Copy, Debug, PartialEq, Eq, Structural)]
pub enum Summary {
    /// A signature of the message verified.
    Pass,
    /// The message carries no signature.
    Neutral,
    /// The message carries signatures and none verified.
    Fail,
}

impl Summary {
    /// The summary as a short machine string.
    pub open spec fn text(self) -> Seq<char> {
        match self {
            Summary::Pass => "pass"@,
            Summary::Neutral => "neutral"@,
            Summary::Fail => "fail"@,
        }
    }
}

/// Result of the DKIM verification.
#[derive(Clone, Copy, Debug)]
pub struct DKIMResult {
    value: Summary,
    error: Option<DKIMError>,
    header_canonicalization_type: Option<Type>,
    body_canonicalization_type: Option<Type>,
}

/// What a [`DKIMResult`] holds.
pub struct Outcome {
    pub summary: Summary,
    pub error: Option<DKIMError>,
    pub header_canonicalization_type: Option<Type>,
    pub body_canonicalization_type: Option<Type>,
}

impl Outcome {
    /// The outcome of a message of which a signature verified.
    pub open spec fn pass(header: Type, body: Type) -> Outcome {
        Outcome {
            summary: Summary::Pass,
            error: None,
            header_canonicalization_type: Some(header),
            body_canonicalization_type: Some(body),
        }
    }

    /// The outcome of a message without a signature.
    pub open spec fn neutral() -> Outcome {
        Outcome {
            summary: Summary::Neutral,
            error: None,
            header_canonicalization_type: None,
            body_canonicalization_type: None,
        }
    }

    /// The outcome of a message whose signatures all failed, with the reason.
    pub open spec fn fail(reason: DKIMError) -> Outcome {
        Outcome {
            summary: Summary::Fail,
            error: Some(reason),
            header_canonicalization_type: None,
            body_canonicalization_type: None,
        }
    }

    /// An error is held exactly by `fail`, the canonicalization types exactly
    /// by `pass`.
    pub open spec fn wf(self) -> bool {
        &&& self.error is Some <==> self.summary == Summary::Fail
        &&& self.header_canonicalization_type is Some <==> self.summary == Summary::Pass
        &&& self.body_canonicalization_type is Some <==> self.summary == Summary::Pass
    }

    /// The detailed text: the summary, and where there is an error the reason
    /// in parentheses after a space.
    pub open spec fn detail(self) -> Seq<char> {
        match self.error {
            Some(e) => self.summary.text() + " ("@ + e.text() + ")"@,
            None => self.summary.text(),
        }
    }
}

impl View for DKIMResult {
    type V = Outcome;

    closed spec fn view(&self) -> Outcome {
        Outcome {
            summary: self.value,
            error: self.error,
            header_canonicalization_type: self.header_canonicalization_type,
            body_canonicalization_type: self.body_canonicalization_type,
        }
    }
}

impl DKIMResult {
    /// Constructs a `pass` result.
    pub fn pass(header_canonicalization_type: Type, body_canonicalization_type: Type) -> (r: Self)
        ensures
            r@ == Outcome::pass(header_canonicalization_type, body_canonicalization_type),
            r@.wf(),
    {
        DKIMResult {
            value: Summary::Pass,
            error: None,
            header_canonicalization_type: Some(header_canonicalization_type),
            body_canonicalization_type: Some(body_canonicalization_type),
        }
    }

    /// Constructs a `neutral` result.
    pub fn neutral() -> (r: Self)
        ensures
            r@ == Outcome::neutral(),
            r@.wf(),
    {
        DKIMResult {
            value: Summary::Neutral,
            error: None,
            header_canonicalization_type: None,
            body_canonicalization_type: None,
        }
    }

    /// Constructs a `fail` result with a reason.
    pub fn fail(reason: DKIMError) -> (r: Self)
        ensures
            r@ == Outcome::fail(reason),
            r@.wf(),
    {
        DKIMResult {
            value: Summary::Fail,
            error: Some(reason),
            header_canonicalization_type: None,
            body_canonicalization_type: None,
        }
    }

    /// The reason of a `fail`.
    pub fn error(&self) -> (r: Option<DKIMError>)
        ensures
            r == self@.error,
    {
        self.error
    }

    /// Returns the verification result as a summary: fail, neutral or pass.
    pub fn summary(&self) -> (r: &'static str)
        ensures
            r@ == self@.summary.text(),
    {
        match self.value {
            Summary::Pass => "pass",
            Summary::Neutral => "neutral",
            Summary::Fail => "fail",
        }
    }

    /// Returns the header canonicalization type of the signature that passed.
    pub fn header_canonicalization_type(&self) -> (r: Option<Type>)
        ensures
            r == self@.header_canonicalization_type,
    {
        self.header_canonicalization_type
    }

    /// Returns the body canonicalization type of the signature that passed.
    pub fn body_canonicalization_type(&self) -> (r: Option<Type>)
        ensures
            r == self@.body_canonicalization_type,
    {
        self.body_canonicalization_type
    }

    /// Similar to `summary` but with detail on fail. Typically used for the
    /// `Authentication-Results` header.
    pub fn with_detail(&self) -> (r: String)
        ensures
            r@ == self@.detail(),
    {
        let mut out = String::from_str(self.summary());
        match self.error {
            Some(err) => {
                let reason = err.message();
                out.append(" (");
                out.append(reason.as_str());
                out.append(")");
            },
            None => {},
        }
        out
    }
}

} // verus!
