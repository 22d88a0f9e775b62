//! Real-time clock state that emulators append to a save file.
//!
//! A cartridge with a clock chip has state the save memory does not hold, and emulators disagree
//! about where to put it:
//!
//! | producer | where | what it holds |
//! | -------- | ----- | ------------- |
//! | mGBA, GBA | appended, 16 bytes | latched BCD, a control register, a latch instant |
//! | SameBoy, Game Boy | appended, 48 bytes | ten MBC3 registers and a write time |
//! | MiSTer Gameboy core | appended, 512 bytes | a write time and the registers bit-packed |
//! | its openFPGA ports | appended, 16 bytes | the same ten bytes, a smaller reserved region |
//! | Gambatte, Game Boy | a `.rtc` file, 4 bytes | an origin, big-endian |
//!
//! The appended forms say nothing about where the save memory ends, so they are found by length
//! and then believed only when every field is in range. Each footer this module reads it can also
//! write back, and the proofs below say which of them come back byte for byte.

use vstd::prelude::*;
use crate::bytes::{
    copy_of, push_all, push_repeated, be16,
    lemma_le32_bytes_of_read, lemma_le32_round_trip,
    le16, le32, le32_bytes, le64, le64_bytes, push_le32, push_le64, read_le16, read_le32, read_le64,
    signed64, to_signed64, to_unsigned64, unsigned64, be32, be32_bytes, push_be32, read_be32,
};
use crate::text::str_eq;

verus! {

/// The extension key the portable reading is written under.
pub const RTC_KEY: &'static str = "x.1sav.rtc";

/// The extension key the chip's own state is written under.
pub const RTC_NATIVE_KEY: &'static str = "x.1sav.rtc.mbc3";

/// The extension key a GBA cartridge's Seiko S-3511A state is written under.
pub const RTC_S3511A_KEY: &'static str = "x.1sav.rtc.s3511a";

/// The footer mGBA appends for a GBA cartridge clock.
const S3511A_LEN: usize = 16;

/// The MBC3 footer with a 32-bit timestamp.
const MBC3_LEN_32: usize = 44;

/// The MBC3 footer with a 64-bit timestamp, which is what every producer sampled writes.
const MBC3_LEN_64: usize = 48;

/// The reserved region an Analogue Pocket openFPGA Game Boy core appends.
pub const PACKED_LEN_POCKET: usize = 16;

/// The reserved region the MiSTer Gameboy core appends: one SD block.
pub const PACKED_LEN_MISTER: usize = 512;

/// The length of the sidecar clock file Gambatte writes beside a save.
pub const GAMBATTE_RTC_LEN: usize = 4;

/// A flat save split into the parts an emulator glued together.
#[derive(Debug, Clone, PartialEq, Eq)]
pub struct Split {
    /// The save memory itself, which is what the cartridge held.
    pub sram: Vec<u8>,
    /// The bytes the emulator appended, verbatim.
    pub footer: Vec<u8>,
    /// What the clock showed, when it can be computed.
    pub reading: Option<Reading>,
    /// The chip's own state.
    pub clock: Clock,
}

/// The state of whichever clock a footer turned out to hold.
#[derive(Debug, Clone, Copy, PartialEq, Eq)]
pub enum Clock {
    /// A Game Boy MBC3 cartridge's clock.
    Mbc3(Mbc3Clock),
    /// A GBA cartridge's Seiko S-3511A.
    S3511a(S3511aClock),
}

/// A Seiko S-3511A as a GBA cartridge latches it.
#[derive(Debug, Clone, Copy, PartialEq, Eq)]
pub struct S3511aClock {
    /// The seven latched BCD bytes: year since 2000, month, day, weekday, hour, minute, second.
    pub components: [u8; 7],
    /// The control register as read. Bit 6 is 24-hour mode.
    pub control: u8,
    /// When the chip was last read, in epoch seconds.
    pub latched_at: i64,
}

/// A clock reading: what the game's clock showed, in whole epoch seconds.
#[derive(Debug, Clone, Copy, PartialEq, Eq)]
pub struct Reading {
    /// What the clock showed, in whole epoch seconds.
    pub instant: i64,
}

/// The MBC3 clock, as the de-facto save footer stores it.
#[derive(Debug, Clone, Copy, PartialEq, Eq)]
pub struct Mbc3Clock {
    /// Seconds, 0 to 59.
    pub seconds: u32,
    /// Minutes, 0 to 59.
    pub minutes: u32,
    /// Hours, 0 to 23.
    pub hours: u32,
    /// The low eight bits of the day counter.
    pub days_low: u32,
    /// Day counter bit 8, the halt flag and the overflow flag.
    pub days_high: u32,
    /// The latched copy the game reads, in the same order.
    pub latched: [u32; 5],
    /// The host clock when the emulator last wrote this save, in epoch seconds.
    pub written_at: i64,
    /// How many bytes that timestamp occupied: 4 or 8, depending on the emulator.
    pub timestamp_width: usize,
}

/// The day counter an MBC3 holds: eight bits, and the ninth from the high register.
pub open spec fn mbc3_days(c: Mbc3Clock) -> u32 {
    c.days_low | ((c.days_high & 1) << 8)
}

/// How long an MBC3 clock has been running, in seconds.
pub open spec fn mbc3_elapsed(c: Mbc3Clock) -> int {
    mbc3_days(c) * 86_400 + c.hours * 3_600 + c.minutes * 60 + c.seconds
}

/// The five live registers, in the order the footer stores them.
pub open spec fn mbc3_live(c: Mbc3Clock) -> Seq<u32> {
    seq![c.seconds, c.minutes, c.hours, c.days_low, c.days_high]
}

impl S3511aClock {
    /// Whether the chip is in 24-hour mode, which is bit 6 of the control register.
    pub fn hour24(self) -> (r: bool)
        ensures
            r == (self.control & 0x40 != 0),
    {
        self.control & 0x40 != 0
    }

    /// What this chip showed, as a Unix instant: the moment it was latched.
    pub fn reading(self) -> (r: Reading)
        ensures
            r.instant == self.latched_at,
    {
        Reading { instant: self.latched_at }
    }
}

impl Mbc3Clock {
    /// How long the cartridge clock has been running, in seconds.
    pub fn elapsed_seconds(self) -> (r: i64)
        ensures
            r == mbc3_elapsed(self),
    {
        let days = self.days() as i64;
        days * 86_400 + self.hours as i64 * 3_600 + self.minutes as i64 * 60 + self.seconds as i64
    }

    /// What this clock showed when the save was written: the anchor plus the elapsed time.
    pub fn reading(self) -> (r: Reading)
        requires
            self.written_at + mbc3_elapsed(self) <= i64::MAX,
        ensures
            r.instant == self.written_at + mbc3_elapsed(self),
    {
        Reading { instant: self.written_at + self.elapsed_seconds() }
    }

    /// The five live registers, in the order the footer stores them.
    pub fn live(self) -> (r: [u32; 5])
        ensures
            r@ == mbc3_live(self),
    {
        let r = [self.seconds, self.minutes, self.hours, self.days_low, self.days_high];
        assert(r@ =~= mbc3_live(self));
        r
    }

    /// How many days the cartridge's clock has counted.
    pub fn days(self) -> (r: u32)
        ensures
            r == mbc3_days(self),
    {
        self.days_low | ((self.days_high & 1) << 8)
    }

    /// Whether the clock is halted.
    pub fn halted(self) -> (r: bool)
        ensures
            r == (self.days_high & 0x40 != 0),
    {
        self.days_high & 0x40 != 0
    }

    /// Whether the day counter has overflowed past 511 days.
    pub fn overflowed(self) -> (r: bool)
        ensures
            r == (self.days_high & 0x80 != 0),
    {
        self.days_high & 0x80 != 0
    }
}

// ---------------------------------------------------------------------------------------------
// The MBC3 footer: ten little-endian registers, then the host clock.

/// Whether every register of an MBC3 clock is in the range the chip keeps it in.
pub open spec fn mbc3_sane(c: Mbc3Clock) -> bool {
    &&& c.seconds < 60
    &&& c.minutes < 60
    &&& c.hours < 24
    &&& c.days_low < 256
    &&& c.latched[0] < 60
    &&& c.latched[1] < 60
    &&& c.latched[2] < 24
    &&& c.latched[3] < 256
}

/// The clock an MBC3 footer of 44 or 48 bytes describes, before any check.
pub open spec fn mbc3_fields(f: Seq<u8>) -> Mbc3Clock {
    Mbc3Clock {
        seconds: le32(f, 0) as u32,
        minutes: le32(f, 4) as u32,
        hours: le32(f, 8) as u32,
        days_low: le32(f, 12) as u32,
        days_high: le32(f, 16) as u32,
        latched: [
            le32(f, 20) as u32,
            le32(f, 24) as u32,
            le32(f, 28) as u32,
            le32(f, 32) as u32,
            le32(f, 36) as u32,
        ],
        written_at: if f.len() == 48 { signed64(le64(f, 40)) as i64 } else { le32(f, 40) as i64 },
        timestamp_width: (f.len() - 40) as usize,
    }
}

/// What an MBC3 footer reads as: a clock when it is the right length and every field makes sense.
pub open spec fn mbc3_of(f: Seq<u8>) -> Option<Mbc3Clock> {
    if f.len() != 44 && f.len() != 48 {
        None
    } else {
        let c = mbc3_fields(f);
        if mbc3_sane(c) && c.written_at >= 0 { Some(c) } else { None }
    }
}

/// Registers laid out one after another, four little-endian bytes each.
pub open spec fn le32_words(s: Seq<u32>) -> Seq<u8>
    decreases s.len(),
{
    if s.len() == 0 {
        Seq::empty()
    } else {
        le32_words(s.drop_last()) + le32_bytes(s.last() as int)
    }
}

/// The MBC3 footer an emulator writes for these registers and this host time.
pub open spec fn mbc3_footer(live: Seq<u32>, latched: Seq<u32>, written_at: i64, width: usize) -> Seq<u8> {
    le32_words(live + latched) + if width == 8 {
        le64_bytes(unsigned64(written_at as int))
    } else {
        le32_bytes(if 0 <= written_at <= u32::MAX { written_at as int } else { 0 })
    }
}

/// Reads the MBC3 footer, checking the registers make sense as a clock.
pub fn parse_mbc3(footer: &[u8]) -> (r: Option<Mbc3Clock>)
    ensures
        r == mbc3_of(footer@),
{
    if footer.len() != MBC3_LEN_32 && footer.len() != MBC3_LEN_64 {
        return None;
    }
    let written_at = if footer.len() == MBC3_LEN_64 {
        to_signed64(read_le64(footer, 40))
    } else {
        read_le32(footer, 40) as i64
    };
    let clock = Mbc3Clock {
        seconds: read_le32(footer, 0),
        minutes: read_le32(footer, 4),
        hours: read_le32(footer, 8),
        days_low: read_le32(footer, 12),
        days_high: read_le32(footer, 16),
        latched: [
            read_le32(footer, 20),
            read_le32(footer, 24),
            read_le32(footer, 28),
            read_le32(footer, 32),
            read_le32(footer, 36),
        ],
        written_at,
        timestamp_width: footer.len() - 40,
    };
    assert(clock.latched@ =~= mbc3_fields(footer@).latched@);
    let sane = clock.seconds < 60 && clock.minutes < 60 && clock.hours < 24 && clock.days_low < 256
        && clock.latched[0] < 60 && clock.latched[1] < 60 && clock.latched[2] < 24
        && clock.latched[3] < 256;
    if sane && clock.written_at >= 0 {
        Some(clock)
    } else {
        None
    }
}

/// Appends five registers, four little-endian bytes each.
fn push_words(out: &mut Vec<u8>, words: &[u32; 5])
    ensures
        final(out)@ == old(out)@ + le32_words(words@),
{
    let ghost start = out@;
    let mut i: usize = 0;
    while i < 5
        invariant
            i <= 5,
            words@.len() == 5,
            out@ == start + le32_words(words@.take(i as int)),
        decreases 5 - i,
    {
        push_le32(out, words[i]);
        assert(words@.take(i + 1).drop_last() =~= words@.take(i as int));
        i = i + 1;
    }
    assert(words@.take(5) =~= words@);
}

/// Registers written one after the other are the first set and then the second.
proof fn lemma_le32_words_concat(a: Seq<u32>, b: Seq<u32>)
    ensures
        le32_words(a + b) == le32_words(a) + le32_words(b),
    decreases b.len(),
{
    if b.len() == 0 {
        assert(a + b =~= a);
        assert(le32_words(b) =~= Seq::<u8>::empty());
        assert(le32_words(a) + le32_words(b) =~= le32_words(a));
    } else {
        lemma_le32_words_concat(a, b.drop_last());
        assert((a + b).drop_last() =~= a + b.drop_last());
        assert((a + b).last() == b.last());
        assert(le32_words(a) + le32_words(b.drop_last()) + le32_bytes(b.last() as int) =~= le32_words(
            a,
        ) + (le32_words(b.drop_last()) + le32_bytes(b.last() as int)));
    }
}

/// Writes the MBC3 footer back out: ten little-endian registers, then the timestamp.
pub fn build_mbc3(live: &[u32; 5], latched: &[u32; 5], written_at: i64, timestamp_width: usize) -> (r:
    Vec<u8>)
    ensures
        r@ == mbc3_footer(live@, latched@, written_at, timestamp_width),
{
    let mut footer: Vec<u8> = Vec::new();
    push_words(&mut footer, live);
    push_words(&mut footer, latched);
    proof {
        lemma_le32_words_concat(live@, latched@);
    }
    let ghost words = footer@;
    if timestamp_width == 8 {
        push_le64(&mut footer, to_unsigned64(written_at));
    } else {
        let stamp: u32 = if 0 <= written_at && written_at <= u32::MAX as i64 {
            written_at as u32
        } else {
            0
        };
        push_le32(&mut footer, stamp);
    }
    assert(footer@ =~= mbc3_footer(live@, latched@, written_at, timestamp_width));
    footer
}

/// The registers a footer holds from its start, read four bytes at a time.
pub open spec fn words_of(f: Seq<u8>, n: int) -> Seq<u32> {
    Seq::new(n as nat, |k: int| le32(f, 4 * k) as u32)
}

/// Writing back the registers read out of a run of bytes gives that run.
proof fn lemma_words_of_read(f: Seq<u8>, n: int)
    requires
        0 <= n,
        4 * n <= f.len(),
    ensures
        le32_words(words_of(f, n)) == f.take(4 * n),
    decreases n,
{
    if n == 0 {
        assert(f.take(0) =~= Seq::<u8>::empty());
    } else {
        let m = n - 1;
        lemma_words_of_read(f, m);
        assert(words_of(f, n).drop_last() =~= words_of(f, m));
        lemma_le32_bytes_of_read(f, 4 * m);
        assert(words_of(f, n).last() == le32(f, 4 * m) as u32);
        assert(f.take(4 * m) + f.subrange(4 * m, 4 * m + 4) =~= f.take(4 * n));
    }
}

/// Writing back the 64-bit value read out of eight bytes gives those bytes.
proof fn lemma_le64_bytes_of_read(f: Seq<u8>, at: int)
    requires
        0 <= at,
        at + 8 <= f.len(),
    ensures
        le64_bytes(le64(f, at)) == f.subrange(at, at + 8),
        0 <= le64(f, at) <= u64::MAX,
{
    lemma_le32_bytes_of_read(f, at);
    lemma_le32_bytes_of_read(f, at + 4);
    let lo = le32(f, at);
    let hi = le32(f, at + 4);
    let v = le64(f, at);
    assert(v % 0x1_0000_0000 == lo && v / 0x1_0000_0000 == hi && 0 <= v <= u64::MAX) by (nonlinear_arith)
        requires
            0 <= lo < 0x1_0000_0000,
            0 <= hi < 0x1_0000_0000,
            v == lo + hi * 0x1_0000_0000,
    ;
    assert(f.subrange(at, at + 4) + f.subrange(at + 4, at + 8) =~= f.subrange(at, at + 8));
}

/// Every byte of an MBC3 footer is accounted for by the clock read out of it, so rebuilding
/// the footer from that clock reproduces the emulator's file exactly, in either timestamp width.
pub proof fn lemma_mbc3_footer_regenerates(f: Seq<u8>)
    requires
        mbc3_of(f) is Some,
    ensures
        ({
            let c = mbc3_of(f)->0;
            mbc3_footer(mbc3_live(c), c.latched@, c.written_at, c.timestamp_width) == f
        }),
{
    let c = mbc3_of(f)->0;
    assert(mbc3_live(c) + c.latched@ =~= words_of(f, 10));
    lemma_words_of_read(f, 10);
    if f.len() == 48 {
        lemma_le64_bytes_of_read(f, 40);
        assert(unsigned64(c.written_at as int) == le64(f, 40));
    } else {
        lemma_le32_bytes_of_read(f, 40);
    }
    assert(f.take(40) + f.subrange(40, f.len() as int) =~= f);
}

// ---------------------------------------------------------------------------------------------
// The Seiko S-3511A footer: seven BCD bytes, a control register, then the latch instant.

/// Whether a byte is two BCD digits.
pub open spec fn bcd_ok(b: u8) -> bool {
    b / 16 <= 9 && b % 16 <= 9
}

/// The value two BCD digits stand for.
pub open spec fn bcd_value(b: u8) -> int {
    (b / 16) * 10 + b % 16
}

/// Whether sixteen bytes read as a plausible S-3511A state: every date and time field in range.
pub open spec fn s3511a_sane(f: Seq<u8>) -> bool {
    &&& bcd_ok(f[0]) && bcd_value(f[0]) <= 99
    &&& bcd_ok(f[1]) && 1 <= bcd_value(f[1]) <= 12
    &&& bcd_ok(f[2]) && 1 <= bcd_value(f[2]) <= 31
    &&& f[3] <= 6
    &&& bcd_ok((f[4] % 64) as u8) && bcd_value((f[4] % 64) as u8) <= 23
    &&& bcd_ok(f[5]) && bcd_value(f[5]) <= 59
    &&& bcd_ok(f[6]) && bcd_value(f[6]) <= 59
    &&& signed64(le64(f, 8)) >= 0
}

/// What an S-3511A footer reads as.
pub open spec fn s3511a_of(f: Seq<u8>) -> Option<S3511aClock> {
    if f.len() != 16 || !s3511a_sane(f) {
        None
    } else {
        Some(
            S3511aClock {
                components: [f[0], f[1], f[2], f[3], f[4], f[5], f[6]],
                control: f[7],
                latched_at: signed64(le64(f, 8)) as i64,
            },
        )
    }
}

/// The S-3511A footer for these components, this control register and this latch instant.
pub open spec fn s3511a_footer(components: Seq<u8>, control: u8, latched_at: i64) -> Seq<u8> {
    components.push(control) + le64_bytes(unsigned64(latched_at as int))
}

/// Two BCD digits, or `None` for a byte that is not.
fn bcd(byte: u8) -> (r: Option<u8>)
    ensures
        r == (if bcd_ok(byte) { Some(bcd_value(byte) as u8) } else { None::<u8> }),
{
    let high = byte / 16;
    let low = byte % 16;
    if high <= 9 && low <= 9 {
        Some(high * 10 + low)
    } else {
        None
    }
}

/// Reads the footer mGBA appends for a GBA cartridge clock, believing it only when every field
/// is a plausible date and time.
pub fn parse_s3511a(footer: &[u8]) -> (r: Option<S3511aClock>)
    ensures
        r == s3511a_of(footer@),
{
    if footer.len() != S3511A_LEN {
        return None;
    }
    let components: [u8; 7] = [footer[0], footer[1], footer[2], footer[3], footer[4], footer[5], footer[6]];
    let year = match bcd(components[0]) {
        Some(v) => v,
        None => return None,
    };
    let month = match bcd(components[1]) {
        Some(v) => v,
        None => return None,
    };
    let day = match bcd(components[2]) {
        Some(v) => v,
        None => return None,
    };
    let weekday = components[3];
    let hour = match bcd(components[4] % 64) {
        Some(v) => v,
        None => return None,
    };
    let minute = match bcd(components[5]) {
        Some(v) => v,
        None => return None,
    };
    let second = match bcd(components[6]) {
        Some(v) => v,
        None => return None,
    };
    let control = footer[7];
    let latched_at = to_signed64(read_le64(footer, 8));
    let sane = year <= 99 && 1 <= month && month <= 12 && 1 <= day && day <= 31 && weekday <= 6
        && hour <= 23 && minute <= 59 && second <= 59 && latched_at >= 0;
    if sane {
        let clock = S3511aClock { components, control, latched_at };
        assert(clock.components@ =~= s3511a_of(footer@)->0.components@);
        Some(clock)
    } else {
        None
    }
}

/// Writes the S-3511A footer back out: the latched components, the control register, then the
/// instant as eight little-endian bytes.
pub fn build_s3511a(components: &[u8; 7], control: u8, latched_at: i64) -> (r: Vec<u8>)
    ensures
        r@ == s3511a_footer(components@, control, latched_at),
{
    let mut footer: Vec<u8> = Vec::new();
    push_all(&mut footer, components);
    footer.push(control);
    push_le64(&mut footer, to_unsigned64(latched_at));
    footer
}

/// Every byte of an S-3511A footer is accounted for by the clock read out of it, so rebuilding
/// the footer from that clock reproduces it exactly.
pub proof fn lemma_s3511a_footer_regenerates(f: Seq<u8>)
    requires
        s3511a_of(f) is Some,
    ensures
        ({
            let c = s3511a_of(f)->0;
            s3511a_footer(c.components@, c.control, c.latched_at) == f
        }),
{
    let c = s3511a_of(f)->0;
    lemma_le64_bytes_of_read(f, 8);
    assert(c.components@ =~= f.take(7));
    assert(f.take(7).push(f[7]) + f.subrange(8, 16) =~= f);
}

// ---------------------------------------------------------------------------------------------
// The packed footer of the MiSTer Gameboy core and its openFPGA ports.

/// The 48 bits the core stores past its timestamp.
pub open spec fn packed_bits(f: Seq<u8>) -> int {
    le32(f, 4) + le16(f, 8) * 0x1_0000_0000
}

/// The day counter the core keeps: ten bits.
pub open spec fn packed_days(p: int) -> int {
    p / 0x2_0000 % 1024
}

/// The high day register an MBC3 would hold for a packed clock: bit 8 of the days, the halt flag
/// as bit 6 and the overflow flag as bit 7.
pub open spec fn packed_days_high(p: int) -> int {
    packed_days(p) / 256 % 2 + (if p / 0x1000_0000 % 2 == 1 { 0x40int } else { 0 }) + (if p
        / 0x800_0000 % 2 == 1 {
        0x80int
    } else {
        0
    })
}

/// What a packed footer reads as.
pub open spec fn packed_of(f: Seq<u8>) -> Option<Mbc3Clock> {
    if f.len() != 16 && f.len() != 512 {
        None
    } else {
        let p = packed_bits(f);
        let (s, m, h) = (p % 64, p / 64 % 64, p / 0x1000 % 32);
        if s > 59 || m > 59 || h > 23 {
            None
        } else {
            let low = packed_days(p) % 256;
            let high = packed_days_high(p);
            Some(
                Mbc3Clock {
                    seconds: s as u32,
                    minutes: m as u32,
                    hours: h as u32,
                    days_low: low as u32,
                    days_high: high as u32,
                    latched: [s as u32, m as u32, h as u32, low as u32, high as u32],
                    written_at: le32(f, 0) as i64,
                    timestamp_width: 8,
                },
            )
        }
    }
}

/// The 29 bits the core packs a clock's registers into.
pub open spec fn packed_value(c: Mbc3Clock) -> int {
    c.seconds % 64 + (c.minutes % 64) * 64 + (c.hours % 32) * 0x1000 + (mbc3_days(c) % 1024) * 0x2_0000
        + (if c.days_high & 0x80 != 0 { 0x800_0000int } else { 0 }) + (if c.days_high & 0x40 != 0 {
        0x1000_0000int
    } else {
        0
    })
}

/// The footer the core writes for a clock, padded with `0xFF` (or cut) to the reserved size.
pub open spec fn packed_footer(c: Mbc3Clock, reserved: usize) -> Seq<u8> {
    let stamp = if 0 <= c.written_at <= u32::MAX { c.written_at as int } else { 0 };
    let ten = le32_bytes(stamp) + le64_bytes(packed_value(c)).take(6);
    if reserved <= 10 {
        ten.take(reserved as int)
    } else {
        ten + Seq::new((reserved - 10) as nat, |i: int| 0xFFu8)
    }
}

/// Reads the footer the MiSTer Gameboy core and its openFPGA ports append: a 32-bit write time,
/// then the registers packed into 29 bits, in a reserved region of 16 or 512 bytes.
pub fn parse_packed(footer: &[u8]) -> (r: Option<Mbc3Clock>)
    ensures
        r == packed_of(footer@),
{
    if footer.len() != PACKED_LEN_POCKET && footer.len() != PACKED_LEN_MISTER {
        return None;
    }
    let written_at = read_le32(footer, 0) as i64;
    let packed: u64 = read_le32(footer, 4) as u64 + read_le16(footer, 8) as u64 * 0x1_0000_0000;
    let seconds = (packed % 64) as u32;
    let minutes = (packed / 64 % 64) as u32;
    let hours = (packed / 0x1000 % 32) as u32;
    let days = (packed / 0x2_0000 % 1024) as u32;
    let overflow = packed / 0x800_0000 % 2 == 1;
    let halt = packed / 0x1000_0000 % 2 == 1;
    if seconds > 59 || minutes > 59 || hours > 23 || written_at < 0 {
        return None;
    }
    let mut days_high = days / 256 % 2;
    if halt {
        days_high = days_high + 0x40;
    }
    if overflow {
        days_high = days_high + 0x80;
    }
    let live = [seconds, minutes, hours, days % 256, days_high];
    let clock = Mbc3Clock {
        seconds,
        minutes,
        hours,
        days_low: days % 256,
        days_high,
        latched: live,
        written_at,
        timestamp_width: 8,
    };
    assert(clock.latched@ =~= packed_of(footer@)->0.latched@);
    Some(clock)
}

/// Writes the packed footer back out, padded to the reserved size its producer uses.
pub fn build_packed(clock: &Mbc3Clock, reserved: usize) -> (r: Vec<u8>)
    ensures
        r@ == packed_footer(*clock, reserved),
{
    let overflow: u64 = if clock.overflowed() { 0x800_0000 } else { 0 };
    let halt: u64 = if clock.halted() { 0x1000_0000 } else { 0 };
    let packed: u64 = (clock.seconds % 64) as u64 + (clock.minutes % 64) as u64 * 64 + (clock.hours
        % 32) as u64 * 0x1000 + (clock.days() % 1024) as u64 * 0x2_0000 + overflow + halt;
    let stamp: u32 = if 0 <= clock.written_at && clock.written_at <= u32::MAX as i64 {
        clock.written_at as u32
    } else {
        0
    };
    let mut wide: Vec<u8> = Vec::new();
    push_le64(&mut wide, packed);
    let mut footer: Vec<u8> = Vec::new();
    push_le32(&mut footer, stamp);
    push_all(&mut footer, &wide.as_slice()[0..6]);
    assert(wide@.subrange(0, 6) =~= le64_bytes(packed as int).take(6));
    let ghost ten = footer@;
    if reserved <= 10 {
        footer.truncate(reserved);
    } else {
        push_repeated(&mut footer, 0xFF, reserved - 10);
    }
    assert(footer@ =~= packed_footer(*clock, reserved));
    footer
}

// ---------------------------------------------------------------------------------------------
// Gambatte's sidecar: the origin the clock counts from, big-endian.

/// What a Gambatte sidecar reads as, given the instant the file was written.
///
/// The elapsed time since the origin becomes the register set an MBC3 would hold at that moment:
/// nine bits of days with the carry above them, and the latched copy equal to the live one. The
/// whole multiples of 512 days the counter cannot hold are taken off the write time instead, so
/// the clock still says exactly which origin it counts from.
pub open spec fn sidecar_of(b: Seq<u8>, captured_at: i64) -> Option<Mbc3Clock> {
    if b.len() != 4 {
        None
    } else {
        let e = captured_at - be32(b, 0);
        if e < 0 {
            None
        } else {
            let days = e / 86_400;
            let (s, m, h) = (e % 60, e / 60 % 60, e / 3_600 % 24);
            let low = days % 256;
            let high = days / 256 % 2 + if days > 511 { 0x80int } else { 0 };
            let dropped = (days / 512) * 512 * 86_400;
            Some(
                Mbc3Clock {
                    seconds: s as u32,
                    minutes: m as u32,
                    hours: h as u32,
                    days_low: low as u32,
                    days_high: high as u32,
                    latched: [s as u32, m as u32, h as u32, low as u32, high as u32],
                    written_at: (captured_at - dropped) as i64,
                    timestamp_width: 8,
                },
            )
        }
    }
}

/// The origin a clock counts from: its write time less its elapsed time, saturating.
pub open spec fn sidecar_origin(c: Mbc3Clock) -> int {
    let base = c.written_at - mbc3_elapsed(c);
    if base < i64::MIN { i64::MIN as int } else { base }
}

/// The sidecar Gambatte writes for a clock: the origin, big-endian, or zero when it does not fit.
pub open spec fn sidecar_bytes(c: Mbc3Clock) -> Seq<u8> {
    let base = sidecar_origin(c);
    be32_bytes(if 0 <= base <= u32::MAX { base } else { 0 })
}

/// Reads Gambatte's sidecar clock file, which stores an origin rather than a reading.
///
/// `captured_at` supplies the instant the file was written, which the file does not record; a
/// base later than it is refused rather than read as a clock running backwards.
///
/// Whatever `captured_at` is, the round trip is exact: writing the sidecar back computes the write
/// time less the elapsed time, which gives the original origin however the instant was chosen.
/// Past 511 days the nine-bit day counter wraps and sets its carry; the whole multiples of 512 days
/// it drops are taken off the write time, so they are not lost on the way back.
pub fn parse_gambatte_sidecar(bytes: &[u8], captured_at: i64) -> (r: Option<Mbc3Clock>)
    ensures
        r == sidecar_of(bytes@, captured_at),
{
    if bytes.len() != GAMBATTE_RTC_LEN {
        return None;
    }
    let base = read_be32(bytes, 0) as i64;
    let elapsed = match captured_at.checked_sub(base) {
        Some(e) => e,
        None => return None,
    };
    if elapsed < 0 {
        return None;
    }
    let days = elapsed / 86_400;
    let seconds = (elapsed % 60) as u32;
    let minutes = (elapsed / 60 % 60) as u32;
    let hours = (elapsed / 3_600 % 24) as u32;
    let days_low = (days % 256) as u32;
    let mut days_high = (days / 256 % 2) as u32;
    if days > 511 {
        days_high = days_high + 0x80;
    }
    let wrapped = days / 512;
    proof {
        assert(wrapped * 512 <= days) by (nonlinear_arith)
            requires
                wrapped == days / 512,
                days >= 0,
        ;
        assert(days * 86_400 <= elapsed) by (nonlinear_arith)
            requires
                days == elapsed / 86_400,
                elapsed >= 0,
        ;
        assert(wrapped * 512 * 86_400 <= days * 86_400) by (nonlinear_arith)
            requires
                wrapped * 512 <= days,
                wrapped >= 0,
        ;
    }
    let dropped = wrapped * 512 * 86_400;
    let live = [seconds, minutes, hours, days_low, days_high];
    let clock = Mbc3Clock {
        seconds,
        minutes,
        hours,
        days_low,
        days_high,
        latched: live,
        written_at: captured_at - dropped,
        timestamp_width: 8,
    };
    assert(clock.latched@ =~= sidecar_of(bytes@, captured_at)->0.latched@);
    Some(clock)
}

/// Writes Gambatte's sidecar back out: the origin the clock is derived from, big-endian.
pub fn build_gambatte_sidecar(clock: &Mbc3Clock) -> (r: Vec<u8>)
    ensures
        r@ == sidecar_bytes(*clock),
{
    let elapsed = clock.elapsed_seconds();
    let base = match clock.written_at.checked_sub(elapsed) {
        Some(b) => b,
        None => i64::MIN,
    };
    let origin: u32 = if 0 <= base && base <= u32::MAX as i64 {
        base as u32
    } else {
        0
    };
    let mut out: Vec<u8> = Vec::new();
    push_be32(&mut out, origin);
    assert(out@ =~= sidecar_bytes(*clock));
    out
}

// ---------------------------------------------------------------------------------------------
// Finding a footer by length.

/// The save memory sizes a Game Boy or Game Boy Color cartridge comes in.
pub open spec fn gb_size(i: int) -> int {
    if i == 0 { 2048 } else if i == 1 { 8192 } else if i == 2 { 32768 } else if i == 3 { 65536 } else { 131_072 }
}

/// The save memory sizes a Game Boy Advance cartridge comes in: EEPROM, SRAM, then flash.
pub open spec fn gba_size(i: int) -> int {
    if i == 0 { 512 } else if i == 1 { 8192 } else if i == 2 { 32768 } else if i == 3 { 65536 } else { 131_072 }
}

/// Which size family a system's saves come in: `Some(false)` for the Game Boy one, which also
/// covers an unstated system, `Some(true)` for the GBA, and `None` for a system with no footer
/// convention.
pub open spec fn family(system: Option<Seq<char>>) -> Option<bool> {
    match system {
        None => Some(false),
        Some(s) => if s == "gb"@ || s == "gbc"@ {
            Some(false)
        } else if s == "gba"@ {
            Some(true)
        } else {
            None
        },
    }
}

/// The clock a trailing run of bytes holds, by its length. Sixteen bytes mean a Seiko chip on a
/// GBA and a packed MBC3 anywhere else.
pub open spec fn footer_clock(f: Seq<u8>, gba: bool) -> Option<Clock> {
    if f.len() == 44 || f.len() == 48 {
        match mbc3_of(f) {
            Some(c) => Some(Clock::Mbc3(c)),
            None => None,
        }
    } else if f.len() == 16 && gba {
        match s3511a_of(f) {
            Some(c) => Some(Clock::S3511a(c)),
            None => None,
        }
    } else if f.len() == 16 || f.len() == 512 {
        match packed_of(f) {
            Some(c) => Some(Clock::Mbc3(c)),
            None => None,
        }
    } else {
        None
    }
}

/// The first size, from the `i`th on, past which the rest of the file reads as a clock.
pub open spec fn split_from(bytes: Seq<u8>, gba: bool, i: int) -> Option<(int, Clock)>
    decreases 5 - i,
{
    if i < 0 || i >= 5 {
        None
    } else {
        let size = if gba { gba_size(i) } else { gb_size(i) };
        if bytes.len() > size && footer_clock(bytes.skip(size), gba) is Some {
            Some((size, footer_clock(bytes.skip(size), gba)->0))
        } else {
            split_from(bytes, gba, i + 1)
        }
    }
}

/// Where a file splits into save memory and a clock footer, and the clock the footer holds.
pub open spec fn split_point(bytes: Seq<u8>, system: Option<Seq<char>>) -> Option<(int, Clock)> {
    match family(system) {
        None => None,
        Some(gba) => split_from(bytes, gba, 0),
    }
}

/// The reading a clock gives: an MBC3's anchor plus its elapsed time, a Seiko chip's latch.
pub open spec fn reading_of(clock: Clock) -> Reading {
    match clock {
        Clock::Mbc3(c) => Reading { instant: (c.written_at + mbc3_elapsed(c)) as i64 },
        Clock::S3511a(c) => Reading { instant: c.latched_at },
    }
}

/// The text a system slug holds, when there is one.
pub open spec fn system_view(system: Option<&str>) -> Option<Seq<char>> {
    match system {
        Some(s) => Some(s@),
        None => None,
    }
}

/// The clock a trailing run of bytes holds, by its length.
fn read_footer(footer: &[u8], gba: bool) -> (r: Option<Clock>)
    ensures
        r == footer_clock(footer@, gba),
{
    let len = footer.len();
    if len == MBC3_LEN_32 || len == MBC3_LEN_64 {
        match parse_mbc3(footer) {
            Some(c) => Some(Clock::Mbc3(c)),
            None => None,
        }
    } else if len == PACKED_LEN_POCKET && gba {
        match parse_s3511a(footer) {
            Some(c) => Some(Clock::S3511a(c)),
            None => None,
        }
    } else if len == PACKED_LEN_POCKET || len == PACKED_LEN_MISTER {
        match parse_packed(footer) {
            Some(c) => Some(Clock::Mbc3(c)),
            None => None,
        }
    } else {
        None
    }
}

/// The `i`th save memory size of a family.
fn size_at(gba: bool, i: usize) -> (r: usize)
    requires
        i < 5,
    ensures
        r == (if gba { gba_size(i as int) } else { gb_size(i as int) }),
{
    if i == 0 {
        if gba { 512 } else { 2048 }
    } else if i == 1 {
        8192
    } else if i == 2 {
        32768
    } else if i == 3 {
        65536
    } else {
        131_072
    }
}

/// Splits a flat save into save memory and an appended footer.
///
/// The footer is not self-delimiting, so this works by length: a file that is a known save size
/// plus a footer that parses as a clock is split there, and anything else is left alone. `system`
/// narrows which sizes are plausible; a system with no footer convention is never split.
pub fn split(bytes: &[u8], system: Option<&str>) -> (r: Option<Split>)
    requires
        split_point(bytes@, system_view(system)) matches Some((_, Clock::Mbc3(c))) ==> c.written_at
            + mbc3_elapsed(c) <= i64::MAX,
    ensures
        match split_point(bytes@, system_view(system)) {
            None => r is None,
            Some((size, clock)) => r matches Some(s) && s.sram@ == bytes@.take(size) && s.footer@
                == bytes@.skip(size) && s.clock == clock && s.reading == Some(reading_of(clock)),
        },
{
    let gba = match system {
        None => false,
        Some(name) => {
            if str_eq(name, "gb") || str_eq(name, "gbc") {
                false
            } else if str_eq(name, "gba") {
                true
            } else {
                return None;
            }
        },
    };
    assert(family(system_view(system)) == Some(gba));
    let mut i: usize = 0;
    while i < 5
        invariant
            i <= 5,
            family(system_view(system)) == Some(gba),
            split_point(bytes@, system_view(system)) == split_from(bytes@, gba, i as int),
            split_point(bytes@, system_view(system)) matches Some((_, Clock::Mbc3(c))) ==> c.written_at
                + mbc3_elapsed(c) <= i64::MAX,
        decreases 5 - i,
    {
        let size = size_at(gba, i);
        if bytes.len() > size {
            let footer = &bytes[size..bytes.len()];
            assert(footer@ =~= bytes@.skip(size as int));
            match read_footer(footer, gba) {
                Some(clock) => {
                    let reading = match clock {
                        Clock::Mbc3(c) => c.reading(),
                        Clock::S3511a(c) => c.reading(),
                    };
                    let sram = copy_of(&bytes[0..size]);
                    assert(sram@ =~= bytes@.take(size as int));
                    return Some(Split { sram, footer: copy_of(footer), reading: Some(reading), clock });
                },
                None => {},
            }
        }
        i = i + 1;
    }
    None
}

// ---------------------------------------------------------------------------------------------
// What comes back byte for byte.

/// The ninth bit of the day counter joins the low eight without carrying into them.
proof fn lemma_days_join(low: u32, high: u32)
    requires
        low < 256,
    ensures
        (low | ((high & 1) << 8)) == low + (high % 2) * 256,
{
    assert((low | ((high & 1) << 8)) == low + (high % 2) * 256) by (bit_vector)
        requires
            low < 256,
    ;
}

/// The flags a high day register carries are the bits they were added as.
proof fn lemma_flags_of(b: u32, halt: u32, overflow: u32)
    requires
        b < 2,
        halt < 2,
        overflow < 2,
    ensures
        ({
            let high = (b + halt * 0x40 + overflow * 0x80) as u32;
            &&& (high & 0x40 != 0) == (halt == 1)
            &&& (high & 0x80 != 0) == (overflow == 1)
            &&& high % 2 == b
        }),
{
    assert({
        let high = (b + halt * 0x40 + overflow * 0x80) as u32;
        &&& (high & 0x40 != 0) == (halt == 1)
        &&& (high & 0x80 != 0) == (overflow == 1)
        &&& high % 2 == b
    }) by (bit_vector)
        requires
            b < 2,
            halt < 2,
            overflow < 2,
    ;
}

/// A 29-bit value is its fields put back together.
proof fn lemma_packed_fields(p: u64)
    requires
        p < 0x2000_0000,
    ensures
        p == p % 64 + (p / 64 % 64) * 64 + (p / 0x1000 % 32) * 0x1000 + (p / 0x2_0000 % 1024)
            * 0x2_0000 + (p / 0x800_0000 % 2) * 0x800_0000 + (p / 0x1000_0000 % 2) * 0x1000_0000,
{
    assert(p == p % 64 + (p / 64 % 64) * 64 + (p / 0x1000 % 32) * 0x1000 + (p / 0x2_0000 % 1024)
        * 0x2_0000 + (p / 0x800_0000 % 2) * 0x800_0000 + (p / 0x1000_0000 % 2) * 0x1000_0000)
        by (bit_vector)
        requires
            p < 0x2000_0000,
    ;
}

/// The packed value of a clock read from a footer is the footer's bits, when they use no bit
/// past the 29 the core packs and the day count fits nine bits.
proof fn lemma_packed_value_of(f: Seq<u8>)
    requires
        packed_of(f) is Some,
        packed_bits(f) < 0x2000_0000,
        packed_days(packed_bits(f)) < 512,
    ensures
        packed_value(packed_of(f)->0) == packed_bits(f),
{
    let c = packed_of(f)->0;
    let p = packed_bits(f);
    let d = packed_days(p);
    let halt = p / 0x1000_0000 % 2;
    let overflow = p / 0x800_0000 % 2;
    assert(0 <= p);
    assert(c.seconds % 64 == p % 64);
    assert(c.minutes % 64 == p / 64 % 64);
    assert(c.hours % 32 == p / 0x1000 % 32);
    assert(c.days_high == d / 256 % 2 + halt * 0x40 + overflow * 0x80);
    lemma_flags_of((d / 256 % 2) as u32, halt as u32, overflow as u32);
    lemma_days_join(c.days_low, c.days_high);
    assert(mbc3_days(c) % 1024 == d);
    assert((if c.days_high & 0x80 != 0 { 0x800_0000int } else { 0 }) == overflow * 0x800_0000);
    assert((if c.days_high & 0x40 != 0 { 0x1000_0000int } else { 0 }) == halt * 0x1000_0000);
    lemma_packed_fields(p as u64);
}

/// The six bytes after the timestamp are the low six bytes of the packed value.
proof fn lemma_packed_bytes(f: Seq<u8>)
    requires
        f.len() >= 10,
    ensures
        le64_bytes(packed_bits(f)).take(6) == f.subrange(4, 10),
{
    lemma_le32_bytes_of_read(f, 4);
    let p = packed_bits(f);
    let lo = le32(f, 4);
    let hi = le16(f, 8);
    assert(p % 0x1_0000_0000 == lo && p / 0x1_0000_0000 == hi) by (nonlinear_arith)
        requires
            0 <= lo < 0x1_0000_0000,
            0 <= hi < 0x1_0000,
            p == lo + hi * 0x1_0000_0000,
    ;
    assert(hi % 0x100 == f[8] && hi / 0x100 % 0x100 == f[9]) by (nonlinear_arith)
        requires
            hi == f[8] + f[9] * 256,
            0 <= f[8] < 256,
            0 <= f[9] < 256,
    ;
    assert(le64_bytes(p).take(6) =~= f.subrange(4, 10));
}

/// A packed footer comes back byte for byte when it is what the core writes: the registers use
/// no bit past the 29 the core packs, the day count fits the nine bits an MBC3 keeps, and the
/// reserved bytes past the tenth are `0xFF`.
///
/// Past 511 days the core's ten-bit counter holds a day count the MBC3's nine bits cannot, so a
/// footer with one does not come back the same.
pub proof fn lemma_packed_footer_regenerates(f: Seq<u8>)
    requires
        packed_of(f) is Some,
        packed_bits(f) < 0x2000_0000,
        packed_days(packed_bits(f)) < 512,
        forall|i: int| 10 <= i < f.len() ==> f[i] == 0xFF,
    ensures
        packed_footer(packed_of(f)->0, f.len() as usize) == f,
{
    let c = packed_of(f)->0;
    lemma_packed_value_of(f);
    lemma_packed_bytes(f);
    lemma_le32_bytes_of_read(f, 0);
    assert(c.written_at == le32(f, 0));
    let ten = le32_bytes(le32(f, 0)) + le64_bytes(packed_value(c)).take(6);
    assert(ten =~= f.subrange(0, 10));
    assert(ten + Seq::new((f.len() - 10) as nat, |i: int| 0xFFu8) =~= f);
}

/// An elapsed time is its days, hours, minutes and seconds put back together.
proof fn lemma_elapsed_fields(e: int)
    requires
        e >= 0,
    ensures
        e == (e / 86_400) * 86_400 + (e / 3_600 % 24) * 3_600 + (e / 60 % 60) * 60 + e % 60,
{
    vstd::arithmetic::div_mod::lemma_div_denominator(e, 60, 60);
    vstd::arithmetic::div_mod::lemma_div_denominator(e, 3_600, 24);
    vstd::arithmetic::div_mod::lemma_fundamental_div_mod(e, 60);
    vstd::arithmetic::div_mod::lemma_fundamental_div_mod(e / 60, 60);
    vstd::arithmetic::div_mod::lemma_fundamental_div_mod(e / 3_600, 24);
}

/// Whatever instant a sidecar is read at, writing it back gives the origin it held: the write
/// time less the elapsed time cancels the instant out, and the days the counter wrapped past were
/// taken off the write time when it was read.
pub proof fn lemma_sidecar_round_trips(b: Seq<u8>, captured_at: i64)
    requires
        sidecar_of(b, captured_at) is Some,
    ensures
        sidecar_bytes(sidecar_of(b, captured_at)->0) == b,
{
    let c = sidecar_of(b, captured_at)->0;
    let e = captured_at - be32(b, 0);
    let days = e / 86_400;
    let wrapped = days / 512;
    assert(days >= 0);
    lemma_days_join(c.days_low, c.days_high);
    assert(c.days_high % 2 == days / 256 % 2);
    assert(mbc3_days(c) == days % 512) by {
        vstd::arithmetic::div_mod::lemma_fundamental_div_mod(days, 256);
        vstd::arithmetic::div_mod::lemma_fundamental_div_mod(days, 512);
        vstd::arithmetic::div_mod::lemma_div_denominator(days, 256, 2);
        vstd::arithmetic::div_mod::lemma_fundamental_div_mod(days / 256, 2);
        vstd::arithmetic::div_mod::lemma_mod_bound(days, 512);
    }
    lemma_elapsed_fields(e);
    assert(c.written_at == captured_at - wrapped * 512 * 86_400);
    assert(wrapped * 512 * 86_400 + (days % 512) * 86_400 == days * 86_400) by (nonlinear_arith)
        requires
            wrapped == days / 512,
            days >= 0,
    {
        vstd::arithmetic::div_mod::lemma_fundamental_div_mod(days, 512);
    }
    assert(mbc3_elapsed(c) == (days % 512) * 86_400 + (e / 3_600 % 24) * 3_600 + (e / 60 % 60) * 60
        + e % 60);
    assert(sidecar_origin(c) == be32(b, 0));
    let base = be32(b, 0);
    assert(be32_bytes(base) =~= b) by {
        assert(base / 0x100_0000 % 0x100 == b[0] && base / 0x1_0000 % 0x100 == b[1] && base / 0x100
            % 0x100 == b[2] && base % 0x100 == b[3]) by (nonlinear_arith)
            requires
                base == b[0] * 0x100_0000 + b[1] * 0x1_0000 + b[2] * 0x100 + b[3],
                0 <= b[0] < 256,
                0 <= b[1] < 256,
                0 <= b[2] < 256,
                0 <= b[3] < 256,
        ;
    }
}

/// A split point found from any size on lies inside the file.
proof fn lemma_split_from_inside(bytes: Seq<u8>, gba: bool, i: int)
    requires
        split_from(bytes, gba, i) is Some,
    ensures
        0 < split_from(bytes, gba, i).unwrap().0 < bytes.len(),
    decreases 5 - i,
{
    let size = if gba { gba_size(i) } else { gb_size(i) };
    if !(bytes.len() > size && footer_clock(bytes.skip(size), gba) is Some) {
        lemma_split_from_inside(bytes, gba, i + 1);
    }
}

/// Splitting loses nothing: the save memory and the footer put back together are the file.
pub proof fn lemma_split_loses_nothing(bytes: Seq<u8>, system: Option<Seq<char>>)
    requires
        split_point(bytes, system) is Some,
    ensures
        ({
            let size = split_point(bytes, system).unwrap().0;
            bytes.take(size) + bytes.skip(size) == bytes
        }),
{
    lemma_split_from_inside(bytes, family(system)->0, 0);
    let size = split_point(bytes, system).unwrap().0;
    assert(bytes.take(size) + bytes.skip(size) =~= bytes);
}

/// The lengths a clock footer comes in: 16 (a Seiko chip, or a Pocket's packed MBC3), 44 or 48
/// (an appended MBC3) and 512 (a MiSTer's packed MBC3).
pub open spec fn footer_length(n: int) -> bool {
    n == 16 || n == 44 || n == 48 || n == 512
}

/// A trailing run reads as a clock only at one of the footer lengths.
proof fn lemma_footer_lengths(f: Seq<u8>, gba: bool)
    requires
        footer_clock(f, gba) is Some,
    ensures
        footer_length(f.len() as int),
{
}

/// Where a split point from the `i`th size on lies: at one of the family's sizes, before a footer
/// of one of the footer lengths.
proof fn lemma_split_from_shape(bytes: Seq<u8>, gba: bool, i: int)
    requires
        split_from(bytes, gba, i) is Some,
    ensures
        ({
            let size = split_from(bytes, gba, i).unwrap().0;
            &&& exists|j: int| 0 <= j < 5 && size == (if gba { gba_size(j) } else { gb_size(j) })
            &&& footer_length(bytes.len() - size)
            &&& footer_clock(bytes.skip(size), gba) == Some(split_from(bytes, gba, i).unwrap().1)
        }),
    decreases 5 - i,
{
    let size = if gba { gba_size(i) } else { gb_size(i) };
    if bytes.len() > size && footer_clock(bytes.skip(size), gba) is Some {
        lemma_footer_lengths(bytes.skip(size), gba);
    } else {
        lemma_split_from_shape(bytes, gba, i + 1);
    }
}

/// What a split is: the save memory is one of the sizes its system's cartridges come in (512,
/// 8192, 32768, 65536 or 131072 bytes for a GBA; 2048 and the same four larger sizes otherwise),
/// the footer one of the lengths a clock is kept in, and the footer holds the clock the split
/// reports. A system outside those families is never split.
pub proof fn lemma_split_shape(bytes: Seq<u8>, system: Option<Seq<char>>)
    ensures
        family(system) is None ==> split_point(bytes, system) is None,
        split_point(bytes, system) matches Some((size, clock)) ==> {
            &&& exists|j: int|
                0 <= j < 5 && size == (if family(system)->0 { gba_size(j) } else { gb_size(j) })
            &&& footer_length(bytes.len() - size)
            &&& footer_clock(bytes.skip(size), family(system)->0) == Some(clock)
        },
{
    if split_point(bytes, system) is Some {
        lemma_split_from_shape(bytes, family(system)->0, 0);
    }
}

/// Past a size smaller than the save memory, what is left is too long to be a footer.
proof fn lemma_no_earlier_split(sram: Seq<u8>, f: Seq<u8>, gba: bool, i: int, j: int)
    requires
        0 <= j <= i < 5,
        sram.len() == (if gba { gba_size(i) } else { gb_size(i) }),
        footer_length(f.len() as int),
        footer_clock(f, gba) is Some,
    ensures
        split_from(sram + f, gba, j) == Some((sram.len() as int, footer_clock(f, gba)->0)),
    decreases i - j,
{
    let bytes = sram + f;
    let size = if gba { gba_size(j) } else { gb_size(j) };
    if j == i {
        assert(bytes.skip(size) =~= f);
    } else {
        assert(bytes.len() - size > 512);
        assert(bytes.skip(size).len() == bytes.len() - size);
        assert(footer_clock(bytes.skip(size), gba) is None);
        lemma_no_earlier_split(sram, f, gba, i, j + 1);
    }
}

/// A save memory of one of its system's sizes with a clock footer after it splits back into
/// exactly that save memory and that footer's clock. So the save part does not depend on the
/// footer: two dumps of one save, taken at different times, split to the same save memory, and
/// hash the same however the clock has moved.
pub proof fn lemma_a_footer_splits_off(sram: Seq<u8>, f: Seq<u8>, system: Option<Seq<char>>, i: int)
    requires
        family(system) is Some,
        0 <= i < 5,
        sram.len() == (if family(system)->0 { gba_size(i) } else { gb_size(i) }),
        footer_clock(f, family(system)->0) is Some,
    ensures
        split_point(sram + f, system) == Some((sram.len() as int, footer_clock(f, family(system)->0)->0)),
        (sram + f).take(sram.len() as int) == sram,
{
    let gba = family(system)->0;
    lemma_footer_lengths(f, gba);
    lemma_no_earlier_split(sram, f, gba, i, 0);
    assert((sram + f).take(sram.len() as int) =~= sram);
}

/// Every save memory size a cartridge comes in is one a footer splits off at: a save of 8, 32, 64
/// or 128 KiB, or of 2 KiB on a Game Boy or 512 bytes of EEPROM on a GBA, followed by a footer
/// that reads as a clock, splits at exactly the save's length, with that footer's clock.
pub proof fn lemma_every_save_size_splits(sram: Seq<u8>, f: Seq<u8>, system: Option<Seq<char>>)
    requires
        family(system) is Some,
        footer_clock(f, family(system)->0) is Some,
        sram.len() == 8192 || sram.len() == 32768 || sram.len() == 65536 || sram.len() == 131072 || (
        family(system)->0 && sram.len() == 512) || (!family(system)->0 && sram.len() == 2048),
    ensures
        split_point(sram + f, system) == Some((sram.len() as int, footer_clock(f, family(system)->0)->0)),
{
    let i: int = if sram.len() == 8192 {
        1
    } else if sram.len() == 32768 {
        2
    } else if sram.len() == 65536 {
        3
    } else if sram.len() == 131072 {
        4
    } else {
        0
    };
    lemma_a_footer_splits_off(sram, f, system, i);
}

/// Two dumps of one save memory whose footers hold clocks split to the same save memory, whatever
/// their clocks say.
pub proof fn lemma_the_save_part_does_not_move(
    sram: Seq<u8>,
    first: Seq<u8>,
    second: Seq<u8>,
    system: Option<Seq<char>>,
    i: int,
)
    requires
        family(system) is Some,
        0 <= i < 5,
        sram.len() == (if family(system)->0 { gba_size(i) } else { gb_size(i) }),
        footer_clock(first, family(system)->0) is Some,
        footer_clock(second, family(system)->0) is Some,
    ensures
        ({
            let a = split_point(sram + first, system).unwrap().0;
            let b = split_point(sram + second, system).unwrap().0;
            (sram + first).take(a) == (sram + second).take(b)
        }),
{
    lemma_a_footer_splits_off(sram, first, system, i);
    lemma_a_footer_splits_off(sram, second, system, i);
}

/// A file that is exactly a save memory size of its system's family is never split: most
/// cartridges have no clock and most saves have no footer.
pub proof fn lemma_a_bare_save_is_left_alone(bytes: Seq<u8>, system: Option<Seq<char>>, i: int)
    requires
        family(system) is Some,
        0 <= i < 5,
        bytes.len() == (if family(system)->0 { gba_size(i) } else { gb_size(i) }),
    ensures
        split_point(bytes, system) is None,
{
    let gba = family(system)->0;
    reveal_with_fuel(split_from, 6);
}

// ---------------------------------------------------------------------------------------------
// Which shape a clock is written back in.

/// Which on-disk shape a clock is written back in.
///
/// The bundle carries the clock, not the encoding, because the encoding is the producer's rather
/// than the cartridge's: three of these hold the same reading and differ only in how they lay it
/// out. So writing one back is a choice, the way a card format is.
#[derive(Debug, Clone, Copy, PartialEq, Eq, Structural)]
pub enum ClockForm {
    /// Appended to the save: ten little-endian registers and an instant. VBA, BGB, mGBA, SameBoy.
    Mbc3Appended,
    /// Appended to the save: an instant and the registers bit-packed, padded to a reserved size.
    /// The MiSTer Gameboy core and its openFPGA ports.
    Packed(usize),
    /// A separate file holding the instant the clock counts from. Gambatte.
    Sidecar,
    /// Appended to the save: latched BCD and a control register. A GBA cartridge's Seiko chip.
    S3511a,
}

/// The shape a producer writes: a Seiko chip's state settles it before the producer is consulted,
/// and otherwise the clock layout the registry records for the core the producer names, with the
/// form most producers use for a producer it records none for.
pub open spec fn form_for(has_s3511a: bool, app: Option<Seq<char>>) -> ClockForm {
    if has_s3511a {
        ClockForm::S3511a
    } else {
        let layout = match app {
            Some(a) => match crate::registry::core_with_slug(a) {
                Some(c) => c.clock,
                None => None,
            },
            None => None,
        };
        match layout {
            Some(crate::registry::ClockLayout::Sidecar) => ClockForm::Sidecar,
            Some(crate::registry::ClockLayout::Packed { reserved }) => ClockForm::Packed(reserved),
            _ => ClockForm::Mbc3Appended,
        }
    }
}

/// The view of an optional name.
pub open spec fn opt_name(app: Option<&str>) -> Option<Seq<char>> {
    match app {
        Some(a) => Some(a@),
        None => None,
    }
}

/// The shape a bundle's producer writes, from whether it carries a Seiko chip's state and what
/// its `source.app` names.
///
/// The layout each core writes is registry data rather than anything read out of the slug: a core
/// is not obliged to spell its own name in a way that gives its clock away.
pub fn clock_form(has_s3511a: bool, app: Option<&str>) -> (r: ClockForm)
    ensures
        r == form_for(has_s3511a, opt_name(app)),
{
    if has_s3511a {
        return ClockForm::S3511a;
    }
    let layout = match app {
        Some(a) => match crate::registry::core_by_slug(a) {
            Some(c) => c.clock,
            None => None,
        },
        None => None,
    };
    match layout {
        Some(crate::registry::ClockLayout::Sidecar) => ClockForm::Sidecar,
        Some(crate::registry::ClockLayout::Packed { reserved }) => ClockForm::Packed(reserved),
        _ => ClockForm::Mbc3Appended,
    }
}

/// The footer a chosen shape gives, from the appended footer rebuilt out of a bundle: none for a
/// sidecar, which is not appended; the packed form re-encoded from the MBC3 registers; the
/// appended footer itself otherwise.
pub open spec fn footer_in_form(raw: Option<Seq<u8>>, form: ClockForm) -> Option<Seq<u8>> {
    match form {
        ClockForm::Sidecar => None,
        ClockForm::Packed(reserved) => match raw {
            Some(r) => match mbc3_of(r) {
                Some(c) => Some(packed_footer(c, reserved)),
                None => None,
            },
            None => None,
        },
        _ => raw,
    }
}

/// The bytes of an optional footer, as values.
pub open spec fn opt_footer(o: Option<Vec<u8>>) -> Option<Seq<u8>> {
    match o {
        Some(v) => Some(v@),
        None => None,
    }
}

/// Rebuilds the footer in a chosen shape, from the appended footer a bundle's header describes.
///
/// A sidecar is not appended at all, so there is no footer for the save to carry.
pub fn footer_of_form(raw: Option<Vec<u8>>, form: ClockForm) -> (r: Option<Vec<u8>>)
    ensures
        opt_footer(r) == footer_in_form(opt_footer(raw), form),
{
    if form == ClockForm::Sidecar {
        return None;
    }
    let raw = match raw {
        Some(raw) => raw,
        None => {
            return None;
        },
    };
    match form {
        ClockForm::Packed(reserved) => match parse_mbc3(raw.as_slice()) {
            Some(clock) => Some(build_packed(&clock, reserved)),
            None => None,
        },
        _ => Some(raw),
    }
}

} // verus!
