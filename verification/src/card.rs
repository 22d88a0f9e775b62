//! The card adapters' own logic: what each card format's entries say beyond the saves in them.
//!
//! Mapping a card's saves onto a bundle's parts is the container's business; what is here is the
//! part of each adapter that reads a card's own fields.

pub mod gc;
pub mod n64;
pub mod neogeo;
pub mod ps1;
pub mod ps2;
pub mod vmu;
