use vstd::prelude::*;

use crate::error::LianaDescError;

verus! {

/// The accepted relative-timelock domain: nonzero 16-bit values. The raw
/// consensus encoding is 32 bits wide, but every bit outside the low 16
/// either disables the timelock or switches it to time-unit semantics, and
/// zero is meaningless as a spending delay; asking for a nonzero 16-bit
/// value rules all of those out at once.
pub open spec fn spec_csv_check(csv_value: u32) -> Result<u16, LianaDescError> {
    if 1 <= csv_value <= 0xffff {
        Ok(csv_value as u16)
    } else {
        Err(LianaDescError::InsaneTimelock(csv_value))
    }
}

/// Narrows a raw relative-timelock value to the accepted domain: it must
/// be nonzero (a real delay) and fit in 16 bits (enabled, block-height
/// based, minimally encoded).
pub fn csv_check(csv_value: u32) -> (r: Result<u16, LianaDescError>)
    ensures
        r == spec_csv_check(csv_value),
{
    if csv_value >= 1 && csv_value <= 0xffff {
        Ok(csv_value as u16)
    } else {
        Err(LianaDescError::InsaneTimelock(csv_value))
    }
}

} // verus!
