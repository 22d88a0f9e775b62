use onesaves::detect::{detect, is_bundle, Format};
use onesaves::error::Error;
use onesaves::raw::is_raw_extension;

#[test]
fn a_bundle_is_recognised_by_its_magic_alone() {
    assert!(is_bundle(b"\xda1SAV\x82\xa0\x81"));
    assert!(!is_bundle(b"1SAV"));
    assert_eq!(detect(b"\xda1SAV\x82\xa0\x81", "").unwrap(), Format::Bundle);
}

#[test]
fn an_unknown_file_is_not_guessed_at() {
    assert!(matches!(detect(&[0u8; 7], "wat"), Err(Error::Undetected)));
}

#[test]
fn names_resolve_for_the_from_and_to_flags() {
    assert_eq!(Format::from_name("ps1"), Some(Format::Ps1Card));
    assert_eq!(Format::from_name("PS2"), Some(Format::Ps2Card));
    assert_eq!(Format::from_name("nonsense"), None);
    assert_eq!(Format::Ps1Card.card_format(), Some("ps1-mc"));
    assert_eq!(Format::Raw.card_format(), None);
}

#[test]
fn every_card_format_names_a_slug_a_system_and_an_extension() {
    for format in [
        Format::Ps1Card,
        Format::N64Pak,
        Format::GcCard,
        Format::Vmu,
        Format::Ps2Card,
        Format::NeoGeoCard,
    ] {
        assert!(format.card_format().is_some(), "{format:?} has no card format slug");
        assert!(!format.default_role().is_empty(), "{format:?} has no default role");
        assert!(format.system().is_some(), "{format:?} has no system slug");
        assert!(!format.extension().is_empty(), "{format:?} has no extension");
        assert!(!format.feature().is_empty(), "{format:?} has no feature");
        assert_eq!(Format::from_card_format(format.card_format().unwrap()), Some(format));
    }
    for format in [Format::Bundle, Format::Raw] {
        assert_eq!(format.card_format(), None);
        assert!(format.is_supported(), "{format:?} is not behind a feature");
    }
    assert_eq!(Format::from_card_format("saturn-bup"), None);
}

#[test]
fn a_name_resolves_even_for_a_format_this_build_cannot_read() {
    assert_eq!(Format::from_name("mcr"), Some(Format::Ps1Card));
    assert_eq!(detect(&[0u8; 4], "mcr").unwrap(), Format::Ps1Card);
    assert!(!Format::Ps1Card.is_supported());
    assert!(matches!(Format::Ps1Card.unsupported(), Error::Unsupported { format: "PS1 memory card", feature: "ps1" }));
}

#[test]
fn the_extension_settles_only_what_the_bytes_did_not() {
    assert_eq!(detect(&[1, 2, 3, 4], "srm").unwrap(), Format::Raw);
    assert_eq!(detect(&[1, 2, 3, 4], "SAV").unwrap(), Format::Raw);
    assert_eq!(detect(&[1, 2, 3, 4], "MPK").unwrap(), Format::N64Pak);
    assert_eq!(detect(&[1, 2, 3, 4], "neo").unwrap(), Format::NeoGeoCard);
    assert_eq!(detect(b"\xda1SAV", "mcr").unwrap(), Format::Bundle);
    assert!(is_raw_extension("FLASH"));
    assert!(!is_raw_extension("flas"));
    assert_eq!(Format::NeoGeoCard.default_role(), "neogeo-card");
    assert_eq!(Format::Vmu.default_role(), "memcard-1");
    assert_eq!(Format::GcCard.label(), "GameCube memory card");
}
