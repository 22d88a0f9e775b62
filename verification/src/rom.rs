//! Reading what a ROM says about itself.
//!
//! Most consoles put a title and a product code in a fixed header, so a ROM alongside a save
//! answers questions the save cannot. This module reads that header and computes the digests a
//! catalog keys on.
//!
//! Every parser here checks a magic before believing a field. A header read out of a file that is
//! not that console's ROM is worse than no header at all, because it looks authoritative and is
//! wrong.

use vstd::prelude::*;
use crate::bytes::{be32, be32_bytes, le16, push_be32, read_be32, read_le16};
use crate::text::{from_utf8_lossy, lossy_utf8, trim, trim_chars, until_nul, until_nul_spec};

verus! {

/// What a ROM's own header says.
#[derive(Debug, Clone, PartialEq, Eq)]
pub struct RomInfo {
    /// The system the ROM is for, as a registry slug.
    pub system: Option<&'static str>,
    /// The title as the header spells it, which is often padded and shouty.
    pub title: Option<String>,
    /// The product code out of the header, where the console has one.
    pub serial: Option<String>,
}

impl Default for RomInfo {
    /// A ROM nothing recognised: no system, no title, no code.
    fn default() -> (r: Self)
        ensures
            r.system is None && r.title is None && r.serial is None,
    {
        RomInfo { system: None, title: None, serial: None }
    }
}

/// What a header says, as values.
pub struct RomView {
    pub system: Option<Seq<char>>,
    pub title: Option<Seq<char>>,
    pub serial: Option<Seq<char>>,
}

/// The view of an optional string.
pub open spec fn opt_text(o: Option<String>) -> Option<Seq<char>> {
    match o {
        Some(s) => Some(s@),
        None => None,
    }
}

impl View for RomInfo {
    type V = RomView;

    open spec fn view(&self) -> RomView {
        RomView {
            system: match self.system {
                Some(s) => Some(s@),
                None => None,
            },
            title: opt_text(self.title),
            serial: opt_text(self.serial),
        }
    }
}

/// A fixed-width header field's text: up to its first NUL, read as UTF-8, with the space padding
/// trimmed from both ends.
pub open spec fn field_text(bytes: Seq<u8>) -> Seq<char> {
    trim_chars(lossy_utf8(until_nul_spec(bytes)))
}

/// A text if it holds anything.
pub open spec fn non_empty(text: Seq<char>) -> Option<Seq<char>> {
    if text.len() == 0 {
        None
    } else {
        Some(text)
    }
}

/// Trims a fixed-width header field: drop the NUL and space padding, keep the rest verbatim.
fn field(bytes: &[u8]) -> (r: String)
    ensures
        r@ == field_text(bytes@),
{
    let text = until_nul(bytes);
    let lossy = from_utf8_lossy(text);
    trim(lossy.as_str())
}

/// A text if it holds anything.
fn some_text(text: String) -> (r: Option<String>)
    ensures
        opt_text(r) == non_empty(text@),
{
    if text.as_str().unicode_len() == 0 {
        None
    } else {
        Some(text)
    }
}

/// The first eight bytes of the Nintendo logo every Game Boy cartridge carries, which the boot
/// ROM checks.
pub open spec fn gb_logo(i: int) -> u8 {
    if i == 0 {
        0xCE
    } else if i == 1 {
        0xED
    } else if i == 2 {
        0x66
    } else if i == 3 {
        0x66
    } else if i == 4 {
        0xCC
    } else if i == 5 {
        0x0D
    } else if i == 6 {
        0x00
    } else {
        0x0B
    }
}

/// What a Game Boy or Game Boy Color header says, if the logo is there.
///
/// The title field shrank as Nintendo took bytes off its end, so the colour flag sits where the
/// last title byte used to; a colour cartridge's title is fifteen bytes.
pub open spec fn gameboy_info(b: Seq<u8>) -> Option<RomView> {
    if b.len() < 0x150 || !(forall|i: int| 0 <= i < 8 ==> #[trigger] b[0x104 + i] == gb_logo(i)) {
        None
    } else {
        let cgb = b[0x143] == 0x80 || b[0x143] == 0xC0;
        let len: int = if cgb { 15 } else { 16 };
        Some(
            RomView {
                system: Some(if cgb { "gbc"@ } else { "gb"@ }),
                title: non_empty(field_text(b.subrange(0x134, 0x134 + len))),
                serial: None,
            },
        )
    }
}

/// What a Game Boy Advance header says, if the fixed byte the BIOS checks is there.
pub open spec fn gba_info(b: Seq<u8>) -> Option<RomView> {
    if b.len() < 0xC0 || b[0xB2] != 0x96 {
        None
    } else {
        Some(
            RomView {
                system: Some("gba"@),
                title: non_empty(field_text(b.subrange(0xA0, 0xAC))),
                serial: non_empty(field_text(b.subrange(0xAC, 0xB0))),
            },
        )
    }
}

/// An N64 header's first 64 bytes in the console's order, from whichever of the three byte
/// orders its dump is in, or nothing when the magic is none of them.
pub open spec fn n64_header(b: Seq<u8>) -> Option<Seq<u8>> {
    let magic = be32(b, 0);
    if magic == 0x8037_1240 {
        Some(b.take(0x40))
    } else if magic == 0x3780_4012 {
        Some(Seq::new(0x40, |i: int| if i % 2 == 0 { b[i + 1] } else { b[i - 1] }))
    } else if magic == 0x4012_3780 {
        Some(Seq::new(0x40, |i: int| b[i - i % 4 + 3 - i % 4]))
    } else {
        None
    }
}

/// What an N64 header says, in any byte order.
pub open spec fn n64_info(b: Seq<u8>) -> Option<RomView> {
    if b.len() < 0x40 || n64_header(b) is None {
        None
    } else {
        let h = n64_header(b)->0;
        Some(
            RomView {
                system: Some("n64"@),
                title: non_empty(field_text(h.subrange(0x20, 0x34))),
                serial: non_empty(field_text(h.subrange(0x3B, 0x3F))),
            },
        )
    }
}

/// What a Mega Drive header says, if it opens with `SEGA`. The international name is preferred,
/// since it is the one in Latin script on a Japanese cartridge too.
pub open spec fn megadrive_info(b: Seq<u8>) -> Option<RomView> {
    if b.len() < 0x190 || !(b[0x100] == 0x53 && b[0x101] == 0x45 && b[0x102] == 0x47 && b[0x103] == 0x41) {
        None
    } else {
        let international = field_text(b.subrange(0x150, 0x180));
        let domestic = field_text(b.subrange(0x120, 0x150));
        Some(
            RomView {
                system: Some("genesis"@),
                title: non_empty(if international.len() == 0 { domestic } else { international }),
                serial: non_empty(field_text(b.subrange(0x183, 0x18E))),
            },
        )
    }
}

/// An iNES file: the header describes the cartridge's wiring and says nothing about the game.
pub open spec fn nes_info(b: Seq<u8>) -> Option<RomView> {
    if b.len() >= 16 && b[0] == 0x4E && b[1] == 0x45 && b[2] == 0x53 && b[3] == 0x1A {
        Some(RomView { system: Some("nes"@), title: None, serial: None })
    } else {
        None
    }
}

/// Where a Super Nintendo header starts, past any 512-byte copier header, at one of the two places
/// a cartridge maps it; the checksum pair, which with its complement adds to all ones, is what
/// tells the real one.
pub open spec fn snes_header_at(b: Seq<u8>, offset: int) -> bool {
    let at = (if b.len() % 1024 == 512 { 512int } else { 0 }) + offset;
    b.len() >= at + 32 && ((le16(b, at + 0x1C) as u16) ^ (le16(b, at + 0x1E) as u16)) == 0xFFFF
}

/// What a Super Nintendo header says, from the first of the two places whose checksum agrees.
pub open spec fn snes_info(b: Seq<u8>) -> Option<RomView> {
    let base: int = if b.len() % 1024 == 512 { 512 } else { 0 };
    if snes_header_at(b, 0x7FC0) {
        Some(
            RomView {
                system: Some("snes"@),
                title: non_empty(field_text(b.subrange(base + 0x7FC0, base + 0x7FC0 + 21))),
                serial: None,
            },
        )
    } else if snes_header_at(b, 0xFFC0) {
        Some(
            RomView {
                system: Some("snes"@),
                title: non_empty(field_text(b.subrange(base + 0xFFC0, base + 0xFFC0 + 21))),
                serial: None,
            },
        )
    } else {
        None
    }
}

/// What a ROM's header says, from the first parser that recognises it, strongest magic first.
pub open spec fn identified(b: Seq<u8>) -> Option<RomView> {
    if gba_info(b) is Some {
        gba_info(b)
    } else if gameboy_info(b) is Some {
        gameboy_info(b)
    } else if n64_info(b) is Some {
        n64_info(b)
    } else if megadrive_info(b) is Some {
        megadrive_info(b)
    } else if nes_info(b) is Some {
        nes_info(b)
    } else {
        snes_info(b)
    }
}

/// Whether one of the parsers with a stronger magic than the Super Nintendo's recognises the bytes.
pub open spec fn stronger_magic(b: Seq<u8>) -> bool {
    gba_info(b) is Some || gameboy_info(b) is Some || n64_info(b) is Some || megadrive_info(b) is Some
        || nes_info(b) is Some
}

/// A copier header changes nothing: prefixing a Super Nintendo image whose length is a whole number
/// of kilobytes with 512 bytes of copier header leaves its header reading as it was, since the
/// header is then looked for 512 bytes further in; and where no stronger magic is found in either
/// file, what `identify` returns is the same for both.
pub proof fn lemma_a_copier_header_is_skipped(copier: Seq<u8>, image: Seq<u8>)
    requires
        copier.len() == 512,
        image.len() % 1024 == 0,
    ensures
        snes_info(copier + image) == snes_info(image),
        !stronger_magic(copier + image) && !stronger_magic(image) ==> identified(copier + image)
            == identified(image),
{
    let c = copier + image;
    assert(c.len() % 1024 == 512) by {
        assert(c.len() == image.len() + 512);
    }
    assert forall|i: int| 0 <= i < image.len() implies #[trigger] c[512 + i] == image[i] by {}
    assert forall|off: int| off == 0x7FC0 || off == 0xFFC0 implies snes_header_at(c, off)
        == snes_header_at(image, off) by {
        if image.len() >= off + 32 {
            assert(c[512 + off + 0x1C] == image[off + 0x1C]);
            assert(c[512 + off + 0x1D] == image[off + 0x1D]);
            assert(c[512 + off + 0x1E] == image[off + 0x1E]);
            assert(c[512 + off + 0x1F] == image[off + 0x1F]);
        }
    }
    if snes_header_at(image, 0x7FC0) {
        assert(c.subrange(512int + 0x7FC0, 512int + 0x7FC0 + 21) =~= image.subrange(0x7FC0int, 0x7FC0int + 21));
    } else if snes_header_at(image, 0xFFC0) {
        assert(c.subrange(512int + 0xFFC0, 512int + 0xFFC0 + 21) =~= image.subrange(0xFFC0int, 0xFFC0int + 21));
    }
}

/// Whether the checksum and its complement at `at` and `at + 2` add to all ones.
pub open spec fn checksum_pair_at(b: Seq<u8>, at: int) -> bool {
    b.len() >= at + 4 && ((b[at] + b[at + 1] * 256) as u16 ^ (b[at + 2] + b[at + 3] * 256) as u16)
        == 0xFFFF
}

/// Where the Super Nintendo header is read: a LoROM header at 0x7FC0 is preferred to a HiROM one
/// at 0xFFC0, each found by its checksum pair 0x1C bytes in and titled by its first 21 bytes, and
/// with a copier header, which a length 512 past a whole number of kilobytes reveals, both sit 512
/// bytes further in, at 0x81C0 and 0x101C0.
pub proof fn lemma_where_the_header_is_read(b: Seq<u8>)
    ensures
        b.len() % 1024 != 512 ==> snes_info(b) == if checksum_pair_at(b, 0x7FDC) {
            Some(RomView { system: Some("snes"@), title: non_empty(field_text(b.subrange(0x7FC0, 0x7FD5))), serial: None })
        } else if checksum_pair_at(b, 0xFFDC) {
            Some(RomView { system: Some("snes"@), title: non_empty(field_text(b.subrange(0xFFC0, 0xFFD5))), serial: None })
        } else {
            None
        },
        b.len() % 1024 == 512 ==> snes_info(b) == if checksum_pair_at(b, 0x81DC) {
            Some(RomView { system: Some("snes"@), title: non_empty(field_text(b.subrange(0x81C0, 0x81D5))), serial: None })
        } else if checksum_pair_at(b, 0x101DC) {
            Some(RomView { system: Some("snes"@), title: non_empty(field_text(b.subrange(0x101C0, 0x101D5))), serial: None })
        } else {
            None
        },
{
}

/// The views of an optional header reading.
pub open spec fn opt_info(o: Option<RomInfo>) -> Option<RomView> {
    match o {
        Some(i) => Some(i@),
        None => None,
    }
}

/// The `i`-th logo byte.
fn gb_logo_at(i: usize) -> (r: u8)
    requires
        i < 8,
    ensures
        r == gb_logo(i as int),
{
    match i {
        0 => 0xCE,
        1 => 0xED,
        2 => 0x66,
        3 => 0x66,
        4 => 0xCC,
        5 => 0x0D,
        6 => 0x00,
        _ => 0x0B,
    }
}

/// Game Boy and Game Boy Color.
fn gameboy(bytes: &[u8]) -> (r: Option<RomInfo>)
    ensures
        opt_info(r) == gameboy_info(bytes@),
{
    if bytes.len() < 0x150 {
        return None;
    }
    let mut i: usize = 0;
    while i < 8
        invariant
            i <= 8,
            bytes@.len() >= 0x150,
            forall|k: int| 0 <= k < i ==> #[trigger] bytes@[0x104 + k] == gb_logo(k),
        decreases 8 - i,
    {
        if bytes[0x104 + i] != gb_logo_at(i) {
            return None;
        }
        i = i + 1;
    }
    let cgb_flag = bytes[0x143];
    let cgb = cgb_flag == 0x80 || cgb_flag == 0xC0;
    let title_len: usize = if cgb {
        15
    } else {
        16
    };
    let title = field(&bytes[0x134..0x134 + title_len]);
    Some(
        RomInfo {
            system: Some(
                if cgb {
                    "gbc"
                } else {
                    "gb"
                },
            ),
            title: some_text(title),
            // A Game Boy header has no product code; the title bytes are all there is.
            serial: None,
        },
    )
}

/// Game Boy Advance.
fn gba(bytes: &[u8]) -> (r: Option<RomInfo>)
    ensures
        opt_info(r) == gba_info(bytes@),
{
    // 0x96 at 0xB2 is the fixed byte the BIOS checks, and it is what tells a GBA ROM from a GB one.
    if bytes.len() < 0xC0 || bytes[0xB2] != 0x96 {
        return None;
    }
    Some(
        RomInfo {
            system: Some("gba"),
            title: some_text(field(&bytes[0xA0..0xAC])),
            serial: some_text(field(&bytes[0xAC..0xB0])),
        },
    )
}

/// The first 64 bytes of an N64 dump in the console's byte order.
fn normalised_n64(bytes: &[u8], magic: u32) -> (r: Option<Vec<u8>>)
    requires
        bytes@.len() >= 0x40,
        magic == be32(bytes@, 0),
    ensures
        r matches Some(v) ==> n64_header(bytes@) == Some(v@),
        r is None ==> n64_header(bytes@) is None,
{
    if magic != 0x8037_1240 && magic != 0x3780_4012 && magic != 0x4012_3780 {
        return None;
    }
    let mut out: Vec<u8> = Vec::new();
    let mut i: usize = 0;
    while i < 0x40
        invariant
            i <= 0x40,
            bytes@.len() >= 0x40,
            magic == be32(bytes@, 0),
            magic == 0x8037_1240 || magic == 0x3780_4012 || magic == 0x4012_3780,
            out@ == n64_header(bytes@)->0.take(i as int),
        decreases 0x40 - i,
    {
        let b = if magic == 0x8037_1240 {
            bytes[i]
        } else if magic == 0x3780_4012 {
            // Byte-swapped within each 16-bit word.
            if i % 2 == 0 {
                bytes[i + 1]
            } else {
                bytes[i - 1]
            }
        } else {
            // Wholly little-endian, within each 32-bit word.
            bytes[i - i % 4 + 3 - i % 4]
        };
        out.push(b);
        assert(out@ =~= n64_header(bytes@)->0.take(i + 1));
        i = i + 1;
    }
    assert(out@ =~= n64_header(bytes@)->0);
    Some(out)
}

/// Nintendo 64, in any of the three byte orders its dumps come in.
fn n64(bytes: &[u8]) -> (r: Option<RomInfo>)
    ensures
        opt_info(r) == n64_info(bytes@),
{
    if bytes.len() < 0x40 {
        return None;
    }
    let magic = read_be32(bytes, 0);
    let header = match normalised_n64(bytes, magic) {
        Some(h) => h,
        None => {
            return None;
        },
    };
    Some(
        RomInfo {
            system: Some("n64"),
            title: some_text(field(&header.as_slice()[0x20..0x34])),
            serial: some_text(field(&header.as_slice()[0x3B..0x3F])),
        },
    )
}

/// Mega Drive and Genesis.
fn megadrive(bytes: &[u8]) -> (r: Option<RomInfo>)
    ensures
        opt_info(r) == megadrive_info(bytes@),
{
    if bytes.len() < 0x190 {
        return None;
    }
    if !(bytes[0x100] == 0x53 && bytes[0x101] == 0x45 && bytes[0x102] == 0x47 && bytes[0x103] == 0x41) {
        return None;
    }
    // The international name is the one in Latin script on a Japanese cartridge too.
    let international = field(&bytes[0x150..0x180]);
    let domestic = field(&bytes[0x120..0x150]);
    let title = if international.as_str().unicode_len() == 0 {
        domestic
    } else {
        international
    };
    Some(
        RomInfo { system: Some("genesis"), title: some_text(title), serial: some_text(field(&bytes[0x183..0x18E])) },
    )
}

/// NES, in the iNES container.
fn nes(bytes: &[u8]) -> (r: Option<RomInfo>)
    ensures
        opt_info(r) == nes_info(bytes@),
{
    // An iNES header describes the cartridge's wiring and says nothing about the game, so there
    // is no title or code to read. Identification here needs a hash and a catalog.
    if bytes.len() >= 16 && bytes[0] == 0x4E && bytes[1] == 0x45 && bytes[2] == 0x53 && bytes[3] == 0x1A {
        Some(RomInfo { system: Some("nes"), title: None, serial: None })
    } else {
        None
    }
}

/// Super Nintendo, whose header sits at one of two places and may be behind a copier header.
fn snes(bytes: &[u8]) -> (r: Option<RomInfo>)
    ensures
        opt_info(r) == snes_info(bytes@),
{
    // A 512-byte copier header shifts everything, and is detected by the file's length rather
    // than by anything in it.
    let base: usize = if bytes.len() % 1024 == 512 {
        512
    } else {
        0
    };
    let first = base + 0x7FC0;
    if bytes.len() >= first + 32 {
        let complement = read_le16(bytes, first + 0x1C);
        let checksum = read_le16(bytes, first + 0x1E);
        if complement ^ checksum == 0xFFFF {
            return Some(
                RomInfo { system: Some("snes"), title: some_text(field(&bytes[first..first + 21])), serial: None },
            );
        }
    }
    let second = base + 0xFFC0;
    if bytes.len() >= second + 32 {
        let complement = read_le16(bytes, second + 0x1C);
        let checksum = read_le16(bytes, second + 0x1E);
        if complement ^ checksum == 0xFFFF {
            return Some(
                RomInfo { system: Some("snes"), title: some_text(field(&bytes[second..second + 21])), serial: None },
            );
        }
    }
    None
}

/// Identifies a ROM from its header.
///
/// Returns `None` when nothing recognises it, which is the honest answer for a headerless system
/// or a file that is not a ROM.
pub fn identify(bytes: &[u8]) -> (r: Option<RomInfo>)
    ensures
        opt_info(r) == identified(bytes@),
{
    // Ordered by how strong the magic is, so a weak check never shadows a strong one.
    let found = gba(bytes);
    if found.is_some() {
        return found;
    }
    let found = gameboy(bytes);
    if found.is_some() {
        return found;
    }
    let found = n64(bytes);
    if found.is_some() {
        return found;
    }
    let found = megadrive(bytes);
    if found.is_some() {
        return found;
    }
    let found = nes(bytes);
    if found.is_some() {
        return found;
    }
    snes(bytes)
}

/// The digest algorithms a retro catalog keys ROMs on, in ascending order of the tag number a
/// hash array is sorted by.
#[derive(Debug, Clone, Copy, PartialEq, Eq, Structural)]
pub enum HashAlgorithm {
    /// SHA-256.
    Sha256,
    /// SHA-1.
    Sha1,
    /// CRC-32, big-endian.
    Crc32,
    /// MD5.
    Md5,
}

/// One digest of a ROM.
#[derive(Debug, Clone, PartialEq, Eq)]
pub struct RomHash {
    /// Which algorithm made it.
    pub algorithm: HashAlgorithm,
    /// The digest's bytes.
    pub digest: Vec<u8>,
}

/// What `sha2::Sha256::digest` gives for a run of bytes.
pub uninterp spec fn sha256_digest(bytes: Seq<u8>) -> Seq<u8>;

/// What `sha1::Sha1::digest` gives for a run of bytes.
pub uninterp spec fn sha1_digest(bytes: Seq<u8>) -> Seq<u8>;

/// What `md5::Md5::digest` gives for a run of bytes.
pub uninterp spec fn md5_digest(bytes: Seq<u8>) -> Seq<u8>;

/// What `crc32fast::hash` gives for a run of bytes.
pub uninterp spec fn crc32_value(bytes: Seq<u8>) -> u32;

/// `sha2::Sha256::digest`: the SHA-256 of a run of bytes, which is 32 bytes long.
#[verifier::external_body]
fn sha256(bytes: &[u8]) -> (r: Vec<u8>)
    ensures
        r@ == sha256_digest(bytes@),
        r@.len() == 32,
{
    <sha2::Sha256 as sha2::Digest>::digest(bytes).to_vec()
}

/// `sha1::Sha1::digest`: the SHA-1 of a run of bytes, which is 20 bytes long.
#[verifier::external_body]
fn sha1(bytes: &[u8]) -> (r: Vec<u8>)
    ensures
        r@ == sha1_digest(bytes@),
        r@.len() == 20,
{
    <sha1::Sha1 as sha1::Digest>::digest(bytes).to_vec()
}

/// `md5::Md5::digest`: the MD5 of a run of bytes, which is 16 bytes long.
#[verifier::external_body]
fn md5(bytes: &[u8]) -> (r: Vec<u8>)
    ensures
        r@ == md5_digest(bytes@),
        r@.len() == 16,
{
    <md5::Md5 as md5::Digest>::digest(bytes).to_vec()
}

/// `crc32fast::hash`: the CRC-32 of a run of bytes.
#[verifier::external_body]
fn crc32(bytes: &[u8]) -> (r: u32)
    ensures
        r == crc32_value(bytes@),
{
    crc32fast::hash(bytes)
}

/// The digests `hashes` gives, as algorithm and bytes, in order.
pub open spec fn rom_digests(bytes: Seq<u8>) -> Seq<(HashAlgorithm, Seq<u8>)> {
    seq![
        (HashAlgorithm::Sha256, sha256_digest(bytes)),
        (HashAlgorithm::Sha1, sha1_digest(bytes)),
        (HashAlgorithm::Crc32, be32_bytes(crc32_value(bytes) as int)),
        (HashAlgorithm::Md5, md5_digest(bytes)),
    ]
}

/// The values of a run of digests.
pub open spec fn digest_views(h: Seq<RomHash>) -> Seq<(HashAlgorithm, Seq<u8>)> {
    Seq::new(h.len(), |i: int| (h[i].algorithm, h[i].digest@))
}

/// Every digest a retro catalog might key on.
///
/// All four are computed together, since a caller reaching for one usually wants whichever its
/// catalog carries and cannot know which that is in advance. They come out ascending by tag
/// number, which is the order a hash array holds.
pub fn hashes(bytes: &[u8]) -> (r: Vec<RomHash>)
    ensures
        digest_views(r@) == rom_digests(bytes@),
{
    let mut crc: Vec<u8> = Vec::new();
    push_be32(&mut crc, crc32(bytes));
    let mut out: Vec<RomHash> = Vec::new();
    out.push(RomHash { algorithm: HashAlgorithm::Sha256, digest: sha256(bytes) });
    out.push(RomHash { algorithm: HashAlgorithm::Sha1, digest: sha1(bytes) });
    out.push(RomHash { algorithm: HashAlgorithm::Crc32, digest: crc });
    out.push(RomHash { algorithm: HashAlgorithm::Md5, digest: md5(bytes) });
    assert(digest_views(out@) =~= rom_digests(bytes@));
    out
}

/// The hints about a game that a save's header carries, and that a ROM can supply.
#[derive(Debug, Clone, PartialEq, Eq)]
pub struct Game {
    /// The game's title: what the ROM's header says, until a catalog gives the canonical name.
    pub title: Option<String>,
    /// The product code.
    pub serial: Option<String>,
    /// The name of the ROM file the hints came from.
    pub rom_filename: Option<String>,
    /// The ROM's digests, ascending by tag number.
    pub rom_hashes: Vec<RomHash>,
    /// Which system's release the hints identify, as a registry slug.
    pub system: Option<&'static str>,
}

impl Default for Game {
    /// Hints that say nothing.
    fn default() -> (r: Self)
        ensures
            r.title is None && r.serial is None && r.rom_filename is None && r.rom_hashes@.len()
                == 0 && r.system is None,
    {
        Game { title: None, serial: None, rom_filename: None, rom_hashes: Vec::new(), system: None }
    }
}

impl Game {
    /// Whether the hints say nothing at all.
    pub fn is_empty(&self) -> (r: bool)
        ensures
            r == (self.title is None && self.serial is None && self.rom_filename is None
                && self.rom_hashes@.len() == 0 && self.system is None),
    {
        self.title.is_none() && self.serial.is_none() && self.rom_filename.is_none()
            && self.rom_hashes.len() == 0 && self.system.is_none()
    }
}

/// The view of an optional static text.
pub open spec fn opt_static(o: Option<&'static str>) -> Option<Seq<char>> {
    match o {
        Some(s) => Some(s@),
        None => None,
    }
}

/// The view of an optional borrowed text.
pub open spec fn opt_str(o: Option<&str>) -> Option<Seq<char>> {
    match o {
        Some(s) => Some(s@),
        None => None,
    }
}

/// Builds the game hints a ROM supports: its header's fields, its filename, and its digests.
pub fn game_from_rom(bytes: &[u8], filename: Option<&str>) -> (game: Game)
    ensures
        digest_views(game.rom_hashes@) == rom_digests(bytes@),
        opt_text(game.rom_filename) == opt_str(filename),
        match identified(bytes@) {
            Some(header) => opt_text(game.title) == header.title && opt_text(game.serial)
                == header.serial && opt_static(game.system) == header.system,
            None => game.title is None && game.serial is None && game.system is None,
        },
{
    let info = match identify(bytes) {
        Some(info) => info,
        None => RomInfo::default(),
    };
    let rom_filename = match filename {
        Some(name) => Some(name.to_owned()),
        None => None,
    };
    Game {
        title: info.title,
        serial: info.serial,
        rom_filename,
        rom_hashes: hashes(bytes),
        system: info.system,
    }
}

} // verus!
