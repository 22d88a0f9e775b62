//! Working out what a file is.
//!
//! Detection reads the bytes first and the extension second, because the extension is the less
//! reliable of the two: the same PS1 card ships as `.mcr`, `.mcd`, `.bin` and `.srm`, and that
//! last one is also what most libretro cores call a flat cartridge save. A file that matches no
//! signature falls back to the extension, and a file that matches neither is undetected rather
//! than guessed at.
//!
//! [`Format`] lists every card format there is, whether or not this library reads it: a build
//! that cannot read a format still has to be able to name it. The PlayStation cards are named and
//! not read here.

use vstd::prelude::*;
use crate::error::Error;
use crate::raw::{is_raw_extension, raw_extension};
use crate::text::{ascii_lowercase, eq_ignore_ascii_case, lower_char, same_ignoring_case};

verus! {

/// What a file turned out to be.
#[derive(Debug, Clone, Copy, PartialEq, Eq, Structural)]
pub enum Format {
    /// A bundle already.
    Bundle,
    /// A flat cartridge save, with nothing in it to say what it belongs to.
    Raw,
    /// A PlayStation memory card, in any of its containers.
    Ps1Card,
    /// A Nintendo 64 Controller Pak.
    N64Pak,
    /// A GameCube memory card image.
    GcCard,
    /// A Dreamcast VMU image.
    Vmu,
    /// A PlayStation 2 memory card image.
    Ps2Card,
    /// A Neo Geo memory card image.
    NeoGeoCard,
}

/// What to call a format in a message.
pub open spec fn label_of(f: Format) -> &'static str {
    match f {
        Format::Bundle => "1saves bundle",
        Format::Raw => "flat cartridge save",
        Format::Ps1Card => "PS1 memory card",
        Format::N64Pak => "N64 Controller Pak",
        Format::GcCard => "GameCube memory card",
        Format::Vmu => "Dreamcast VMU",
        Format::Ps2Card => "PS2 memory card",
        Format::NeoGeoCard => "Neo Geo memory card",
    }
}

/// The card format slug of the formats that are cards.
pub open spec fn card_format_of(f: Format) -> Option<&'static str> {
    match f {
        Format::Ps1Card => Some("ps1-mc"),
        Format::N64Pak => Some("n64-cpak"),
        Format::GcCard => Some("gc-mc"),
        Format::Vmu => Some("vmu"),
        Format::Ps2Card => Some("ps2-mc"),
        Format::NeoGeoCard => Some("neogeo-mc"),
        Format::Bundle | Format::Raw => None,
    }
}

/// The registry slug of the system whose saves a card format holds.
pub open spec fn system_of(f: Format) -> Option<&'static str> {
    match f {
        Format::Ps1Card => Some("psx"),
        Format::N64Pak => Some("n64"),
        Format::GcCard => Some("gc"),
        Format::Vmu => Some("dreamcast"),
        Format::Ps2Card => Some("ps2"),
        Format::NeoGeoCard => Some("neogeo"),
        Format::Bundle | Format::Raw => None,
    }
}

/// The extension a file of a format conventionally takes, without the dot.
pub open spec fn extension_of(f: Format) -> &'static str {
    match f {
        Format::Bundle => "1saves",
        Format::Raw => "srm",
        Format::Ps1Card => "mcr",
        Format::N64Pak => "mpk",
        Format::GcCard => "raw",
        Format::Vmu => "bin",
        Format::Ps2Card => "ps2",
        Format::NeoGeoCard => "neo",
    }
}

/// Whether this library reads and writes a format: everything but the PlayStation cards.
pub open spec fn supported(f: Format) -> bool {
    !(f is Ps1Card) && !(f is Ps2Card)
}

/// The feature that supplies a format, for an error that has to name one.
pub open spec fn feature_of(f: Format) -> &'static str {
    match f {
        Format::Bundle | Format::Raw => "",
        Format::Ps1Card => "ps1",
        Format::N64Pak => "n64",
        Format::GcCard => "gc",
        Format::Vmu => "vmu",
        Format::Ps2Card => "ps2",
        Format::NeoGeoCard => "neogeo",
    }
}

/// The format a card format slug denotes.
pub open spec fn format_of_card(slug: Seq<char>) -> Option<Format> {
    if slug == "ps1-mc"@ {
        Some(Format::Ps1Card)
    } else if slug == "n64-cpak"@ {
        Some(Format::N64Pak)
    } else if slug == "gc-mc"@ {
        Some(Format::GcCard)
    } else if slug == "vmu"@ {
        Some(Format::Vmu)
    } else if slug == "ps2-mc"@ {
        Some(Format::Ps2Card)
    } else if slug == "neogeo-mc"@ {
        Some(Format::NeoGeoCard)
    } else {
        None
    }
}

/// The format a name denotes, whatever its case.
pub open spec fn format_named(name: Seq<char>) -> Option<Format> {
    if same_ignoring_case(name, "1saves"@) || same_ignoring_case(name, "bundle"@) {
        Some(Format::Bundle)
    } else if same_ignoring_case(name, "raw"@) || same_ignoring_case(name, "srm"@) || same_ignoring_case(name, "sav"@) {
        Some(Format::Raw)
    } else if same_ignoring_case(name, "ps1"@) || same_ignoring_case(name, "ps1-mc"@) || same_ignoring_case(name, "psx"@)
        || same_ignoring_case(name, "mcr"@) {
        Some(Format::Ps1Card)
    } else if same_ignoring_case(name, "n64"@) || same_ignoring_case(name, "n64-cpak"@) || same_ignoring_case(
        name,
        "cpak"@,
    ) || same_ignoring_case(name, "mpk"@) {
        Some(Format::N64Pak)
    } else if same_ignoring_case(name, "gc"@) || same_ignoring_case(name, "gc-mc"@) || same_ignoring_case(
        name,
        "gamecube"@,
    ) {
        Some(Format::GcCard)
    } else if same_ignoring_case(name, "vmu"@) || same_ignoring_case(name, "dreamcast"@) {
        Some(Format::Vmu)
    } else if same_ignoring_case(name, "ps2"@) || same_ignoring_case(name, "ps2-mc"@) || same_ignoring_case(
        name,
        "psu"@,
    ) {
        Some(Format::Ps2Card)
    } else if same_ignoring_case(name, "neogeo"@) || same_ignoring_case(name, "neogeo-mc"@) || same_ignoring_case(
        name,
        "neo"@,
    ) || same_ignoring_case(name, "mvs"@) || same_ignoring_case(name, "aes"@) {
        Some(Format::NeoGeoCard)
    } else {
        None
    }
}

impl Format {
    /// What to call this format in a message.
    pub fn label(self) -> (r: &'static str)
        ensures
            r == label_of(self),
    {
        match self {
            Format::Bundle => "1saves bundle",
            Format::Raw => "flat cartridge save",
            Format::Ps1Card => "PS1 memory card",
            Format::N64Pak => "N64 Controller Pak",
            Format::GcCard => "GameCube memory card",
            Format::Vmu => "Dreamcast VMU",
            Format::Ps2Card => "PS2 memory card",
            Format::NeoGeoCard => "Neo Geo memory card",
        }
    }

    /// The card format slug this maps to, for the formats that are cards.
    pub fn card_format(self) -> (r: Option<&'static str>)
        ensures
            r == card_format_of(self),
    {
        match self {
            Format::Ps1Card => Some("ps1-mc"),
            Format::N64Pak => Some("n64-cpak"),
            Format::GcCard => Some("gc-mc"),
            Format::Vmu => Some("vmu"),
            Format::Ps2Card => Some("ps2-mc"),
            Format::NeoGeoCard => Some("neogeo-mc"),
            Format::Bundle | Format::Raw => None,
        }
    }

    /// The registry slug for the system whose saves this format holds.
    ///
    /// One system for a Neo Geo card, not two: the MVS cabinet and the AES console take the same
    /// card and read each other's saves.
    pub fn system(self) -> (r: Option<&'static str>)
        ensures
            r == system_of(self),
    {
        match self {
            Format::Ps1Card => Some("psx"),
            Format::N64Pak => Some("n64"),
            Format::GcCard => Some("gc"),
            Format::Vmu => Some("dreamcast"),
            Format::Ps2Card => Some("ps2"),
            Format::NeoGeoCard => Some("neogeo"),
            Format::Bundle | Format::Raw => None,
        }
    }

    /// The socket this format is normally read from, when a caller does not say.
    ///
    /// Every other card format goes in a numbered memory card slot. A Neo Geo card has a socket of
    /// its own, because a cabinet keeps its own backup RAM beside it.
    pub fn default_role(self) -> (r: &'static str)
        ensures
            r == (if self is NeoGeoCard { "neogeo-card" } else { "memcard-1" }),
    {
        match self {
            Format::NeoGeoCard => "neogeo-card",
            _ => "memcard-1",
        }
    }

    /// The extension a file of this format conventionally takes, without the dot.
    pub fn extension(self) -> (r: &'static str)
        ensures
            r == extension_of(self),
    {
        match self {
            Format::Bundle => "1saves",
            Format::Raw => "srm",
            Format::Ps1Card => "mcr",
            Format::N64Pak => "mpk",
            Format::GcCard => "raw",
            Format::Vmu => "bin",
            Format::Ps2Card => "ps2",
            Format::NeoGeoCard => "neo",
        }
    }

    /// Whether this library can read and write the format.
    pub fn is_supported(self) -> (r: bool)
        ensures
            r == supported(self),
    {
        match self {
            Format::Bundle | Format::Raw => true,
            Format::Ps1Card => false,
            Format::N64Pak => true,
            Format::GcCard => true,
            Format::Vmu => true,
            Format::Ps2Card => false,
            Format::NeoGeoCard => true,
        }
    }

    /// The feature that supplies this format, for an error that has to name one.
    pub fn feature(self) -> (r: &'static str)
        ensures
            r == feature_of(self),
    {
        match self {
            Format::Bundle | Format::Raw => "",
            Format::Ps1Card => "ps1",
            Format::N64Pak => "n64",
            Format::GcCard => "gc",
            Format::Vmu => "vmu",
            Format::Ps2Card => "ps2",
            Format::NeoGeoCard => "neogeo",
        }
    }

    /// The error naming this format, for a library that cannot handle it.
    pub fn unsupported(self) -> (r: Error)
        ensures
            r == (Error::Unsupported { format: label_of(self), feature: feature_of(self) }),
    {
        Error::Unsupported { format: self.label(), feature: self.feature() }
    }

    /// The format a bundle's card format slug denotes.
    ///
    /// `None` for a slug that names no card format at all, which is a different thing from one
    /// this library names and does not read.
    pub fn from_card_format(slug: &str) -> (r: Option<Self>)
        ensures
            r == format_of_card(slug@),
    {
        if crate::text::str_eq(slug, "ps1-mc") {
            Some(Format::Ps1Card)
        } else if crate::text::str_eq(slug, "n64-cpak") {
            Some(Format::N64Pak)
        } else if crate::text::str_eq(slug, "gc-mc") {
            Some(Format::GcCard)
        } else if crate::text::str_eq(slug, "vmu") {
            Some(Format::Vmu)
        } else if crate::text::str_eq(slug, "ps2-mc") {
            Some(Format::Ps2Card)
        } else if crate::text::str_eq(slug, "neogeo-mc") {
            Some(Format::NeoGeoCard)
        } else {
            None
        }
    }

    /// The format a name denotes, for the `--from` and `--to` flags.
    ///
    /// Names resolve whether or not this library reads the format, so a request for one it cannot
    /// handle is refused in those words rather than as an unknown name.
    pub fn from_name(name: &str) -> (r: Option<Self>)
        ensures
            r == format_named(name@),
    {
        let is = |lit: &str| -> (b: bool)
            ensures
                b == same_ignoring_case(name@, lit@),
            { eq_ignore_ascii_case(name, lit) };
        if is("1saves") || is("bundle") {
            Some(Format::Bundle)
        } else if is("raw") || is("srm") || is("sav") {
            Some(Format::Raw)
        } else if is("ps1") || is("ps1-mc") || is("psx") || is("mcr") {
            Some(Format::Ps1Card)
        } else if is("n64") || is("n64-cpak") || is("cpak") || is("mpk") {
            Some(Format::N64Pak)
        } else if is("gc") || is("gc-mc") || is("gamecube") {
            Some(Format::GcCard)
        } else if is("vmu") || is("dreamcast") {
            Some(Format::Vmu)
        } else if is("ps2") || is("ps2-mc") || is("psu") {
            Some(Format::Ps2Card)
        } else if is("neogeo") || is("neogeo-mc") || is("neo") || is("mvs") || is("aes") {
            Some(Format::NeoGeoCard)
        } else {
            None
        }
    }
}

/// Whether bytes open with the bundle tag: `0xDA` and then `1SAV`.
pub open spec fn bundle_magic(bytes: Seq<u8>) -> bool {
    bytes.len() >= 5 && bytes[0] == 0xDA && bytes[1] == 0x31 && bytes[2] == 0x53 && bytes[3] == 0x41
        && bytes[4] == 0x56
}

/// Whether these bytes open with the bundle tag.
///
/// The tag's own encoding is the file magic, so this is a five-byte check that needs no decoder.
pub fn is_bundle(bytes: &[u8]) -> (r: bool)
    ensures
        r == bundle_magic(bytes@),
{
    bytes.len() >= 5 && bytes[0] == 0xDA && bytes[1] == 0x31 && bytes[2] == 0x53 && bytes[3] == 0x41
        && bytes[4] == 0x56
}

/// The format an extension names, when the bytes named none.
pub open spec fn format_by_extension(extension: Seq<char>) -> Option<Format> {
    if same_ignoring_case(extension, "1saves"@) {
        Some(Format::Bundle)
    } else if same_ignoring_case(extension, "mcr"@) || same_ignoring_case(extension, "mcd"@)
        || same_ignoring_case(extension, "gme"@) || same_ignoring_case(extension, "vgs"@)
        || same_ignoring_case(extension, "vmp"@) {
        Some(Format::Ps1Card)
    } else if same_ignoring_case(extension, "mpk"@) || same_ignoring_case(extension, "pak"@) {
        Some(Format::N64Pak)
    } else if same_ignoring_case(extension, "raw"@) || same_ignoring_case(extension, "gcp"@) {
        Some(Format::GcCard)
    } else if same_ignoring_case(extension, "ps2"@) {
        Some(Format::Ps2Card)
    } else if same_ignoring_case(extension, "neo"@) {
        Some(Format::NeoGeoCard)
    } else if raw_extension(extension) {
        Some(Format::Raw)
    } else {
        None
    }
}

/// The format a signature names, strongest first: the bundle tag, then each card this library
/// reads, with the Controller Pak last because its test can be passed by accident.
pub open spec fn format_by_signature(bytes: Seq<u8>) -> Option<Format> {
    if bundle_magic(bytes) {
        Some(Format::Bundle)
    } else if bytes.len() == crate::vmu::IMAGE_LEN && crate::vmu::formatted(bytes) {
        Some(Format::Vmu)
    } else if crate::gc::looks_like_card(bytes) {
        Some(Format::GcCard)
    } else if crate::neogeo::stripped(bytes) is Some {
        Some(Format::NeoGeoCard)
    } else if crate::n64::looks_like_pak(bytes) {
        Some(Format::N64Pak)
    } else {
        None
    }
}

/// Works out what a file is, from its bytes and its name.
///
/// `extension` is whatever followed the last `.`, without it, or empty. A signature beats a name
/// every time; a PlayStation card, whose signature this library does not read, is still named by
/// its extensions, so it is refused as what it is rather than misread.
pub fn detect(bytes: &[u8], extension: &str) -> (r: Result<Format, Error>)
    ensures
        format_by_signature(bytes@) is Some ==> r == Ok::<Format, Error>(format_by_signature(bytes@)->0),
        format_by_signature(bytes@) is None ==> match format_by_extension(extension@) {
            Some(f) => r == Ok::<Format, Error>(f),
            None => r == Err::<Format, Error>(Error::Undetected),
        },
{
    if is_bundle(bytes) {
        return Ok(Format::Bundle);
    }
    if crate::vmu::detect(bytes) {
        return Ok(Format::Vmu);
    }
    if crate::gc::detect(bytes) {
        return Ok(Format::GcCard);
    }
    // The pak has no magic, so it is checked last: its test is that the index table is
    // plausible, which a file of the right length could pass by accident.
    if crate::neogeo::detect(bytes) {
        return Ok(Format::NeoGeoCard);
    }
    if crate::n64::detect(bytes) {
        return Ok(Format::N64Pak);
    }
    // Nothing matched a signature, so fall back to the name.
    let is = |lit: &str| -> (b: bool)
        ensures
            b == same_ignoring_case(extension@, lit@),
        { eq_ignore_ascii_case(extension, lit) };
    if is("1saves") {
        Ok(Format::Bundle)
    } else if is("mcr") || is("mcd") || is("gme") || is("vgs") || is("vmp") {
        Ok(Format::Ps1Card)
    } else if is("mpk") || is("pak") {
        Ok(Format::N64Pak)
    } else if is("raw") || is("gcp") {
        Ok(Format::GcCard)
    } else if is("ps2") {
        Ok(Format::Ps2Card)
    } else if is("neo") {
        Ok(Format::NeoGeoCard)
    } else if is_raw_extension(extension) {
        Ok(Format::Raw)
    } else {
        Err(Error::Undetected)
    }
}

/// Two names that differ in length, or at some place once capitals are folded, are not the same
/// name in any case.
proof fn lemma_unlike(a: Seq<char>, b: Seq<char>, k: int)
    requires
        a.len() != b.len() || (0 <= k < a.len() && k < b.len() && lower_char(a[k]) != lower_char(b[k])),
    ensures
        !same_ignoring_case(a, b),
{
    if a.len() == b.len() {
        assert(ascii_lowercase(a)[k] != ascii_lowercase(b)[k]);
    } else {
        assert(ascii_lowercase(a).len() != ascii_lowercase(b).len());
    }
}

/// Every format a file's name can tell is told by its own extension, in any case: where the bytes
/// match no signature, `detect` gives back the format whose conventional extension the file bears,
/// for every format but the VMU, whose `.bin` names nothing. And that extension names the same
/// format `Format::from_name` gives for it, but for `raw`, which as an extension is a GameCube card
/// image and as a name is a flat save.
pub proof fn lemma_an_extension_names_its_format(f: Format, extension: Seq<char>)
    requires
        same_ignoring_case(extension, extension_of(f)@),
        !(f is Vmu),
    ensures
        format_by_extension(extension) == Some(f),
        !(f is GcCard) ==> format_named(extension) == Some(f),
{
    match f {
        Format::Bundle => {
            reveal_strlit("1saves");
        },
        Format::Raw => {
            reveal_strlit("srm");
            reveal_strlit("1saves");
            reveal_strlit("mcr");
            reveal_strlit("mcd");
            reveal_strlit("gme");
            reveal_strlit("vgs");
            reveal_strlit("vmp");
            reveal_strlit("mpk");
            reveal_strlit("pak");
            reveal_strlit("raw");
            reveal_strlit("gcp");
            reveal_strlit("ps2");
            reveal_strlit("neo");
            reveal_strlit("bundle");
            lemma_unlike("srm"@, "1saves"@, 0);
            lemma_unlike("srm"@, "mcr"@, 0);
            lemma_unlike("srm"@, "mcd"@, 0);
            lemma_unlike("srm"@, "gme"@, 0);
            lemma_unlike("srm"@, "vgs"@, 0);
            lemma_unlike("srm"@, "vmp"@, 0);
            lemma_unlike("srm"@, "mpk"@, 0);
            lemma_unlike("srm"@, "pak"@, 0);
            lemma_unlike("srm"@, "raw"@, 0);
            lemma_unlike("srm"@, "gcp"@, 0);
            lemma_unlike("srm"@, "ps2"@, 0);
            lemma_unlike("srm"@, "neo"@, 0);
            lemma_unlike("srm"@, "bundle"@, 0);
        },
        Format::Ps1Card => {
            reveal_strlit("mcr");
            reveal_strlit("1saves");
            reveal_strlit("bundle");
            reveal_strlit("raw");
            reveal_strlit("srm");
            reveal_strlit("sav");
            reveal_strlit("ps1");
            reveal_strlit("ps1-mc");
            reveal_strlit("psx");
            lemma_unlike("mcr"@, "1saves"@, 0);
            lemma_unlike("mcr"@, "bundle"@, 0);
            lemma_unlike("mcr"@, "raw"@, 0);
            lemma_unlike("mcr"@, "srm"@, 0);
            lemma_unlike("mcr"@, "sav"@, 0);
            lemma_unlike("mcr"@, "ps1"@, 0);
            lemma_unlike("mcr"@, "ps1-mc"@, 0);
            lemma_unlike("mcr"@, "psx"@, 0);
        },
        Format::N64Pak => {
            reveal_strlit("mpk");
            reveal_strlit("1saves");
            reveal_strlit("mcr");
            reveal_strlit("mcd");
            reveal_strlit("gme");
            reveal_strlit("vgs");
            reveal_strlit("vmp");
            reveal_strlit("bundle");
            reveal_strlit("raw");
            reveal_strlit("srm");
            reveal_strlit("sav");
            reveal_strlit("ps1");
            reveal_strlit("ps1-mc");
            reveal_strlit("psx");
            reveal_strlit("n64");
            reveal_strlit("n64-cpak");
            reveal_strlit("cpak");
            lemma_unlike("mpk"@, "1saves"@, 0);
            lemma_unlike("mpk"@, "mcr"@, 1);
            lemma_unlike("mpk"@, "mcd"@, 1);
            lemma_unlike("mpk"@, "gme"@, 0);
            lemma_unlike("mpk"@, "vgs"@, 0);
            lemma_unlike("mpk"@, "vmp"@, 0);
            lemma_unlike("mpk"@, "bundle"@, 0);
            lemma_unlike("mpk"@, "raw"@, 0);
            lemma_unlike("mpk"@, "srm"@, 0);
            lemma_unlike("mpk"@, "sav"@, 0);
            lemma_unlike("mpk"@, "ps1"@, 0);
            lemma_unlike("mpk"@, "ps1-mc"@, 0);
            lemma_unlike("mpk"@, "psx"@, 0);
            lemma_unlike("mpk"@, "n64"@, 0);
            lemma_unlike("mpk"@, "n64-cpak"@, 0);
            lemma_unlike("mpk"@, "cpak"@, 0);
        },
        Format::GcCard => {
            reveal_strlit("raw");
            reveal_strlit("1saves");
            reveal_strlit("mcr");
            reveal_strlit("mcd");
            reveal_strlit("gme");
            reveal_strlit("vgs");
            reveal_strlit("vmp");
            reveal_strlit("mpk");
            reveal_strlit("pak");
            lemma_unlike("raw"@, "1saves"@, 0);
            lemma_unlike("raw"@, "mcr"@, 0);
            lemma_unlike("raw"@, "mcd"@, 0);
            lemma_unlike("raw"@, "gme"@, 0);
            lemma_unlike("raw"@, "vgs"@, 0);
            lemma_unlike("raw"@, "vmp"@, 0);
            lemma_unlike("raw"@, "mpk"@, 0);
            lemma_unlike("raw"@, "pak"@, 0);
        },
        Format::Ps2Card => {
            reveal_strlit("ps2");
            reveal_strlit("1saves");
            reveal_strlit("mcr");
            reveal_strlit("mcd");
            reveal_strlit("gme");
            reveal_strlit("vgs");
            reveal_strlit("vmp");
            reveal_strlit("mpk");
            reveal_strlit("pak");
            reveal_strlit("raw");
            reveal_strlit("gcp");
            reveal_strlit("bundle");
            reveal_strlit("srm");
            reveal_strlit("sav");
            reveal_strlit("ps1");
            reveal_strlit("ps1-mc");
            reveal_strlit("psx");
            reveal_strlit("n64");
            reveal_strlit("n64-cpak");
            reveal_strlit("cpak");
            reveal_strlit("gc");
            reveal_strlit("gc-mc");
            reveal_strlit("gamecube");
            reveal_strlit("vmu");
            reveal_strlit("dreamcast");
            lemma_unlike("ps2"@, "1saves"@, 0);
            lemma_unlike("ps2"@, "mcr"@, 0);
            lemma_unlike("ps2"@, "mcd"@, 0);
            lemma_unlike("ps2"@, "gme"@, 0);
            lemma_unlike("ps2"@, "vgs"@, 0);
            lemma_unlike("ps2"@, "vmp"@, 0);
            lemma_unlike("ps2"@, "mpk"@, 0);
            lemma_unlike("ps2"@, "pak"@, 1);
            lemma_unlike("ps2"@, "raw"@, 0);
            lemma_unlike("ps2"@, "gcp"@, 0);
            lemma_unlike("ps2"@, "bundle"@, 0);
            lemma_unlike("ps2"@, "srm"@, 0);
            lemma_unlike("ps2"@, "sav"@, 0);
            lemma_unlike("ps2"@, "ps1"@, 2);
            lemma_unlike("ps2"@, "ps1-mc"@, 0);
            lemma_unlike("ps2"@, "psx"@, 2);
            lemma_unlike("ps2"@, "n64"@, 0);
            lemma_unlike("ps2"@, "n64-cpak"@, 0);
            lemma_unlike("ps2"@, "cpak"@, 0);
            lemma_unlike("ps2"@, "gc"@, 0);
            lemma_unlike("ps2"@, "gc-mc"@, 0);
            lemma_unlike("ps2"@, "gamecube"@, 0);
            lemma_unlike("ps2"@, "vmu"@, 0);
            lemma_unlike("ps2"@, "dreamcast"@, 0);
        },
        Format::NeoGeoCard => {
            reveal_strlit("neo");
            reveal_strlit("1saves");
            reveal_strlit("mcr");
            reveal_strlit("mcd");
            reveal_strlit("gme");
            reveal_strlit("vgs");
            reveal_strlit("vmp");
            reveal_strlit("mpk");
            reveal_strlit("pak");
            reveal_strlit("raw");
            reveal_strlit("gcp");
            reveal_strlit("ps2");
            reveal_strlit("bundle");
            reveal_strlit("srm");
            reveal_strlit("sav");
            reveal_strlit("ps1");
            reveal_strlit("ps1-mc");
            reveal_strlit("psx");
            reveal_strlit("n64");
            reveal_strlit("n64-cpak");
            reveal_strlit("cpak");
            reveal_strlit("gc");
            reveal_strlit("gc-mc");
            reveal_strlit("gamecube");
            reveal_strlit("vmu");
            reveal_strlit("dreamcast");
            reveal_strlit("ps2-mc");
            reveal_strlit("psu");
            reveal_strlit("neogeo");
            reveal_strlit("neogeo-mc");
            lemma_unlike("neo"@, "1saves"@, 0);
            lemma_unlike("neo"@, "mcr"@, 0);
            lemma_unlike("neo"@, "mcd"@, 0);
            lemma_unlike("neo"@, "gme"@, 0);
            lemma_unlike("neo"@, "vgs"@, 0);
            lemma_unlike("neo"@, "vmp"@, 0);
            lemma_unlike("neo"@, "mpk"@, 0);
            lemma_unlike("neo"@, "pak"@, 0);
            lemma_unlike("neo"@, "raw"@, 0);
            lemma_unlike("neo"@, "gcp"@, 0);
            lemma_unlike("neo"@, "ps2"@, 0);
            lemma_unlike("neo"@, "bundle"@, 0);
            lemma_unlike("neo"@, "srm"@, 0);
            lemma_unlike("neo"@, "sav"@, 0);
            lemma_unlike("neo"@, "ps1"@, 0);
            lemma_unlike("neo"@, "ps1-mc"@, 0);
            lemma_unlike("neo"@, "psx"@, 0);
            lemma_unlike("neo"@, "n64"@, 1);
            lemma_unlike("neo"@, "n64-cpak"@, 0);
            lemma_unlike("neo"@, "cpak"@, 0);
            lemma_unlike("neo"@, "gc"@, 0);
            lemma_unlike("neo"@, "gc-mc"@, 0);
            lemma_unlike("neo"@, "gamecube"@, 0);
            lemma_unlike("neo"@, "vmu"@, 0);
            lemma_unlike("neo"@, "dreamcast"@, 0);
            lemma_unlike("neo"@, "ps2-mc"@, 0);
            lemma_unlike("neo"@, "psu"@, 0);
            lemma_unlike("neo"@, "neogeo"@, 0);
            lemma_unlike("neo"@, "neogeo-mc"@, 0);
        },
        Format::Vmu => {},
    }
}

} // verus!
