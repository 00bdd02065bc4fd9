//! Reading an index as a signed number.
use vstd::prelude::*;

verus! {

/// Whether an index is positive when read as an `isize` (`index as isize > 0`).
pub fn index_is_positive(index: usize) -> (res: bool)
    ensures
        res == (0 < index <= isize::MAX),
{
    index > 0 && index <= (isize::MAX as usize)
}

/// The magnitude of a signed offset (`isize::unsigned_abs`).
pub fn unsigned_abs(offset: isize) -> (res: usize)
    ensures
        res == if offset >= 0 {
            offset as int
        } else {
            -offset
        },
{
    if offset >= 0 {
        offset as usize
    } else {
        let m: isize = -(offset + 1);
        (m as usize) + 1
    }
}

} // verus!
