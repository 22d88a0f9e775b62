//! Dreamcast VMUs.

use vstd::prelude::*;

verus! {

/// Whether these bytes look like a VMU image.
pub fn detect(bytes: &[u8]) -> (r: bool)
    ensures
        r == (bytes@.len() == crate::vmu::IMAGE_LEN && crate::vmu::formatted(bytes@)),
{
    crate::vmu::detect(bytes)
}

} // verus!
