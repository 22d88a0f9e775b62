//! Retro console save files: memory card filesystems, cartridge clock footers, ROM headers and
//! the registries a save container names things from.

pub mod bytes;
pub mod text;
pub mod rtc;
pub mod chain;
pub mod vmu;
pub mod gc;
pub mod n64;
pub mod neogeo;
pub mod error;
pub mod raw;
pub mod detect;
pub mod label;
pub mod rom;
pub mod registry;
pub mod profile;
pub mod card;
pub mod icon;
pub mod archive;
pub mod explorer;
pub mod dat;

use vstd::prelude::*;

verus! {

} // verus!
