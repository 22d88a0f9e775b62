//! Flat cartridge saves: the `.srm`, `.sav`, `.eep` and `.fla` files most emulators write.
//!
//! There is nothing to parse. A flat save is the cartridge's save memory as a run of bytes, and
//! wrapping it is a matter of saying what it belongs to, which is exactly what a bare file cannot
//! say.

use vstd::prelude::*;
use crate::error::Error;
use crate::rtc::{
    parse_gambatte_sidecar, reading_of, sidecar_of, split, split_point, system_view, Clock, Reading,
    Split,
};
use crate::text::{eq_ignore_ascii_case, same_ignoring_case};

verus! {

/// Whether an extension is one a flat save commonly arrives under: cartridge save RAM as libretro
/// cores write it (`srm`), cartridge save memory (`sav`), EEPROM (`eep`), flash memory (`fla`,
/// `flash`), SA-1 save RAM (`sa1`), real-time clock state (`rtc`) and bsnes save RAM (`bsv`),
/// in any case.
pub open spec fn raw_extension(extension: Seq<char>) -> bool {
    ||| same_ignoring_case(extension, "srm"@)
    ||| same_ignoring_case(extension, "sav"@)
    ||| same_ignoring_case(extension, "eep"@)
    ||| same_ignoring_case(extension, "fla"@)
    ||| same_ignoring_case(extension, "flash"@)
    ||| same_ignoring_case(extension, "sa1"@)
    ||| same_ignoring_case(extension, "rtc"@)
    ||| same_ignoring_case(extension, "bsv"@)
}

/// Whether an extension is one a flat save commonly takes.
///
/// This is a hint for detection, not a rule. An emulator is free to write `.sav` for anything.
pub fn is_raw_extension(extension: &str) -> (r: bool)
    ensures
        r == raw_extension(extension@),
{
    eq_ignore_ascii_case(extension, "srm") || eq_ignore_ascii_case(extension, "sav")
        || eq_ignore_ascii_case(extension, "eep") || eq_ignore_ascii_case(extension, "fla")
        || eq_ignore_ascii_case(extension, "flash") || eq_ignore_ascii_case(extension, "sa1")
        || eq_ignore_ascii_case(extension, "rtc") || eq_ignore_ascii_case(extension, "bsv")
}

/// A flat save made ready to wrap: the bytes that go in the save part, and the clock that goes in
/// the header, where there is one.
#[derive(Debug, Clone)]
pub struct Wrapped {
    /// The save memory, without any clock footer an emulator appended.
    pub payload: Vec<u8>,
    /// The clock split off the save or read from a sidecar beside it.
    pub clock: Option<Split>,
}

/// What wrapping makes of a flat save's bytes: a zero-byte file is refused; an appended clock
/// footer is split off where splitting is asked for and one is found; otherwise a sidecar clock,
/// where one is given, is read at the instant given for it, and reads as that instant.
pub open spec fn wrap_result(
    bytes: Seq<u8>,
    system: Option<Seq<char>>,
    split_rtc: bool,
    sidecar: Option<(Seq<u8>, i64)>,
) -> Result<(Seq<u8>, Option<(Seq<u8>, Seq<u8>, Clock, Reading)>), Seq<char>> {
    if bytes.len() == 0 {
        Err("this save is zero bytes"@)
    } else {
        match (if split_rtc { split_point(bytes, system) } else { None }) {
            Some((size, clock)) => Ok(
                (bytes.take(size), Some((bytes.take(size), bytes.skip(size), clock, reading_of(clock)))),
            ),
            None => match sidecar {
                None => Ok((bytes, None)),
                Some((file, captured_at)) => match sidecar_of(file, captured_at) {
                    Some(c) => Ok(
                        (bytes, Some((Seq::empty(), Seq::empty(), Clock::Mbc3(c), Reading { instant: captured_at }))),
                    ),
                    None => Err("this sidecar is not a clock, or its instant is wrong"@),
                },
            },
        }
    }
}

/// The values of what wrapping gives.
pub open spec fn wrapped_view(r: Result<Wrapped, Error>) -> Result<
    (Seq<u8>, Option<(Seq<u8>, Seq<u8>, Clock, Reading)>),
    Seq<char>,
> {
    match r {
        Ok(w) => Ok(
            (
                w.payload@,
                match w.clock {
                    Some(s) => Some((s.sram@, s.footer@, s.clock, s.reading.unwrap_or(Reading { instant: 0 }))),
                    None => None,
                },
            ),
        ),
        Err(Error::NotConvertible(why)) => Err(why@),
        Err(_) => Err(Seq::empty()),
    }
}

/// Gets a flat save's bytes ready to wrap.
///
/// A zero-byte payload is refused: an emulator that wrote one has almost certainly written a
/// placeholder for a game that has not saved yet. An emulator may have appended clock state, a
/// live timestamp riding inside what otherwise looks like save data, and splitting it out is what
/// keeps the save's own bytes stable. A clock kept in its own file says the same thing, and is
/// only read where nothing was appended: an emulator either appends or does not.
pub fn wrap_payload(
    bytes: &[u8],
    system: Option<&str>,
    split_rtc: bool,
    sidecar: Option<(&[u8], i64)>,
) -> (r: Result<Wrapped, Error>)
    requires
        split_rtc ==> (split_point(bytes@, system_view(system)) matches Some((_, Clock::Mbc3(c)))
            ==> c.written_at + crate::rtc::mbc3_elapsed(c) <= i64::MAX),
    ensures
        wrapped_view(r) == wrap_result(
            bytes@,
            system_view(system),
            split_rtc,
            match sidecar {
                Some((file, captured_at)) => Some((file@, captured_at)),
                None => None,
            },
        ),
        r matches Ok(w) ==> (w.clock matches Some(s) ==> s.reading is Some),
        r matches Err(e) ==> e is NotConvertible,
{
    if bytes.len() == 0 {
        return Err(Error::NotConvertible("this save is zero bytes".to_owned()));
    }
    let found = if split_rtc {
        split(bytes, system)
    } else {
        None
    };
    match found {
        Some(s) => {
            let payload = crate::bytes::copy_of(s.sram.as_slice());
            Ok(Wrapped { payload, clock: Some(s) })
        },
        None => match sidecar {
            None => Ok(Wrapped { payload: crate::bytes::copy_of(bytes), clock: None }),
            Some((file, captured_at)) => match parse_gambatte_sidecar(file, captured_at) {
                Some(c) => {
                    let clock = Split {
                        sram: Vec::new(),
                        footer: Vec::new(),
                        reading: Some(Reading { instant: captured_at }),
                        clock: Clock::Mbc3(c),
                    };
                    Ok(Wrapped { payload: crate::bytes::copy_of(bytes), clock: Some(clock) })
                },
                None => Err(
                    Error::NotConvertible("this sidecar is not a clock, or its instant is wrong".to_owned()),
                ),
            },
        },
    }
}

} // verus!
