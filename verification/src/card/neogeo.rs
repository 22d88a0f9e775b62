//! Neo Geo memory cards.
//!
//! A card goes in its own socket, `neogeo-card`, and a cabinet's battery-backed RAM beside it is a
//! different save, `internal`.

use vstd::prelude::*;

verus! {

/// Whether these bytes look like a Neo Geo card, bare or in a MiSTer save.
pub fn detect(bytes: &[u8]) -> (r: bool)
    ensures
        r == (crate::neogeo::stripped(bytes@) is Some),
{
    crate::neogeo::detect(bytes)
}

} // verus!
