use vstd::prelude::*;

verus! {

/// Why an operation of this library failed.
#[derive(Debug, Clone, Copy, PartialEq, Eq, Structural)]
pub enum KeriError {
    /// A stream is malformed: wrong message order, wrong attachment kind,
    /// wrong number of seal source couples.
    Decoding,
    /// A rule of the protocol is broken: schema mismatch, stale or revoked
    /// status, an unsupported or contradictory edge operator.
    Validation,
    /// A digest, anchor or root of trust does not match.
    Verification,
    /// A structural precondition is violated.
    Value,
    /// The store contradicts itself.
    Programmer,
    /// The store holds nothing under the key that was asked for.
    NotFound,
    /// A value does not have the shape that was asked for.
    Conversion,
    /// A cryptographic or encoding primitive refused its input.
    Primitive,
}

impl KeriError {
    /// A short description of the error, for messages.
    pub fn describe(&self) -> (r: &'static str)
        ensures
            r@ == Self::description(*self),
    {
        match self {
            KeriError::Decoding => "decoding error",
            KeriError::Validation => "validation error",
            KeriError::Verification => "verification error",
            KeriError::Value => "value error",
            KeriError::Programmer => "programmer error",
            KeriError::NotFound => "not found",
            KeriError::Conversion => "conversion error",
            KeriError::Primitive => "primitive error",
        }
    }

    /// The text that `describe` returns.
    pub open spec fn description(e: KeriError) -> Seq<char> {
        match e {
            KeriError::Decoding => "decoding error"@,
            KeriError::Validation => "validation error"@,
            KeriError::Verification => "verification error"@,
            KeriError::Value => "value error"@,
            KeriError::Programmer => "programmer error"@,
            KeriError::NotFound => "not found"@,
            KeriError::Conversion => "conversion error"@,
            KeriError::Primitive => "primitive error"@,
        }
    }
}

} // verus!
