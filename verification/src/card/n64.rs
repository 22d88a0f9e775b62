//! Nintendo 64 Controller Paks.

use vstd::prelude::*;

verus! {

/// Whether these bytes look like a Controller Pak.
pub fn detect(bytes: &[u8]) -> (r: bool)
    ensures
        r == crate::n64::looks_like_pak(bytes@),
{
    crate::n64::detect(bytes)
}

} // verus!
