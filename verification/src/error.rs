use vstd::prelude::*;

use crate::keys::DescKey;

verus! {

/// Why a descriptor was rejected. All three kinds are recoverable,
/// caller-facing validation failures: no partial policy is ever returned.
#[derive(Debug, Clone, PartialEq, Eq)]
pub enum LianaDescError {
    /// The descriptor or one of its sub-policies does not match the
    /// required primary-or-timelocked-recovery shape.
    IncompatibleDesc,
    /// A key does not fit the wallet's signing model; carries that key.
    InvalidKey(DescKey),
    /// A raw relative-timelock value outside the accepted domain; carries
    /// the offending raw value.
    InsaneTimelock(u32),
}

impl LianaDescError {
    /// A short description of the failure.
    pub fn message(&self) -> (r: &'static str)
        ensures
            r@ =~= match self {
                LianaDescError::IncompatibleDesc => "incompatible descriptor"@,
                LianaDescError::InvalidKey(_) => "invalid descriptor key"@,
                LianaDescError::InsaneTimelock(_) => "invalid relative timelock value"@,
            },
    {
        match self {
            LianaDescError::IncompatibleDesc => "incompatible descriptor",
            LianaDescError::InvalidKey(_) => "invalid descriptor key",
            LianaDescError::InsaneTimelock(_) => "invalid relative timelock value",
        }
    }
}

} // verus!
