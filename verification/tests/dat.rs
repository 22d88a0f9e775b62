use onesaves::dat::Catalog;
use onesaves::error::Error;
use onesaves::rom::{Game, HashAlgorithm, RomHash};

/// Builds an expected digest from hex, of the length its algorithm makes.
fn hash_from_hex(algorithm: HashAlgorithm, text: &str) -> Option<RomHash> {
    let length = match algorithm {
        HashAlgorithm::Sha256 => 32,
        HashAlgorithm::Sha1 => 20,
        HashAlgorithm::Md5 => 16,
        HashAlgorithm::Crc32 => 4,
    };
    if text.len() != length * 2 {
        return None;
    }
    let mut digest = Vec::with_capacity(length);
    for pair in text.as_bytes().chunks(2) {
        digest.push(u8::from_str_radix(std::str::from_utf8(pair).ok()?, 16).ok()?);
    }
    Some(RomHash { algorithm, digest })
}

fn algorithms(hashes: &[RomHash]) -> Vec<HashAlgorithm> {
    hashes.iter().map(|hash| hash.algorithm).collect()
}

const LOGIQX: &str = r#"<?xml version="1.0"?>
<datafile>
  <header>
    <name>Nintendo - Game Boy</name>
    <version>20260101</version>
  </header>
  <game name="Pokemon - Red Version (USA, Europe)">
    <description>Pokemon - Red Version (USA, Europe)</description>
    <rom name="Pokemon - Red Version (USA, Europe).gb" size="1048576"
         serial="DMG-APAE-USA" crc="9F7FDD53" md5="3d45c1ee9abd5738df46d2bdda8b57dc"
         sha1="ea9bcae617fdf159b045185467ae58b2e4a48b9a"/>
  </game>
  <game name="Tetris (World) (Rev 1)">
    <rom name="Tetris (World) (Rev 1).gb" size="32768" crc="46166F60"
         sha1="35e4901a8e2c6f6a1d0e0d0e0d0e0d0e0d0e0d0e"/>
  </game>
</datafile>"#;

const CLRMAMEPRO: &str = r#"clrmamepro (
	name "Nintendo - Game Boy"
	version 20260101
)

game (
	name "Pokemon - Red Version (USA, Europe)"
	serial "DMG-APAE-USA"
	rom ( name "Pokemon - Red Version (USA, Europe).gb" size 1048576 crc 9F7FDD53 sha1 ea9bcae617fdf159b045185467ae58b2e4a48b9a )
)
"#;

#[test]
fn reads_the_logiqx_shape() {
    let catalog = Catalog::parse(LOGIQX).expect("parses");
    assert_eq!(catalog.name.as_deref(), Some("Nintendo - Game Boy"));
    assert_eq!(catalog.len(), 2);

    let entry = &catalog.entries()[0];
    assert_eq!(entry.name, "Pokemon - Red Version (USA, Europe)");
    assert_eq!(entry.size, Some(1_048_576));
    assert_eq!(entry.serial.as_deref(), Some("DMG-APAE-USA"));
    // Three digests, sorted ascending by tag: sha1, crc32, md5.
    assert_eq!(entry.hashes.len(), 3);
    assert_eq!(algorithms(&entry.hashes), vec![HashAlgorithm::Sha1, HashAlgorithm::Crc32, HashAlgorithm::Md5]);
}

#[test]
fn reads_the_clrmamepro_shape_to_the_same_result() {
    let catalog = Catalog::parse(CLRMAMEPRO).expect("parses");
    assert_eq!(catalog.name.as_deref(), Some("Nintendo - Game Boy"));
    assert_eq!(catalog.len(), 1);

    let entry = &catalog.entries()[0];
    assert_eq!(entry.name, "Pokemon - Red Version (USA, Europe)");
    assert_eq!(entry.size, Some(1_048_576));
    assert_eq!(entry.serial.as_deref(), Some("DMG-APAE-USA"));
    // A quoted name with spaces survives tokenizing.
    assert_eq!(entry.rom_name, "Pokemon - Red Version (USA, Europe).gb");
}

#[test]
fn looks_up_by_digest_and_not_by_name() {
    let catalog = Catalog::parse(LOGIQX).expect("parses");
    let crc = hash_from_hex(HashAlgorithm::Crc32, "9F7FDD53").unwrap();
    assert_eq!(catalog.lookup(&crc).map(|e| e.name.as_str()), Some("Pokemon - Red Version (USA, Europe)"));

    // A digest nothing carries resolves to nothing rather than to a near miss.
    let absent = hash_from_hex(HashAlgorithm::Crc32, "00000000").unwrap();
    assert_eq!(catalog.lookup(&absent), None);
}

#[test]
fn prefers_the_strongest_digest_that_matches() {
    // Two entries whose CRC-32 agrees and whose SHA-1 does not: matching on the weak hash
    // would pick either, and matching on the strong one settles it.
    let dat = r#"<datafile>
          <game name="Real"><rom name="a" crc="11111111" sha1="aa39a3ee5e6b4b0d3255bfef95601890afd80709"/></game>
          <game name="Collision"><rom name="b" crc="11111111" sha1="bb39a3ee5e6b4b0d3255bfef95601890afd80709"/></game>
        </datafile>"#;
    let catalog = Catalog::parse(dat).expect("parses");

    let crc = hash_from_hex(HashAlgorithm::Crc32, "11111111").unwrap();
    let sha1 = hash_from_hex(HashAlgorithm::Sha1, "bb39a3ee5e6b4b0d3255bfef95601890afd80709").unwrap();
    assert_eq!(catalog.lookup_any(&[crc, sha1]).map(|e| e.name.as_str()), Some("Collision"));
}

#[test]
fn enriching_takes_the_catalog_name_and_keeps_the_header_serial() {
    let catalog = Catalog::parse(LOGIQX).expect("parses");
    let mut game = Game {
        title: Some("POKEMON RED".into()),
        serial: Some("FROM-HEADER".into()),
        rom_hashes: vec![hash_from_hex(HashAlgorithm::Crc32, "9F7FDD53").unwrap()],
        ..Game::default()
    };

    assert!(catalog.enrich(&mut game));
    // The canonical set name replaces the shouty header title.
    assert_eq!(game.title.as_deref(), Some("Pokemon - Red Version (USA, Europe)"));
    // The serial came off the ROM itself, so the catalog's transcription does not overwrite it.
    assert_eq!(game.serial.as_deref(), Some("FROM-HEADER"));
    // Digests the catalog had and we did not are taken, still ascending by tag.
    assert_eq!(game.rom_hashes.len(), 3);
    assert_eq!(algorithms(&game.rom_hashes), vec![HashAlgorithm::Sha1, HashAlgorithm::Crc32, HashAlgorithm::Md5]);
}

#[test]
fn enriching_a_rom_no_catalog_lists_changes_nothing() {
    let catalog = Catalog::parse(LOGIQX).expect("parses");
    let mut game = Game {
        title: Some("UNKNOWN".into()),
        rom_hashes: vec![hash_from_hex(HashAlgorithm::Crc32, "DEADBEEF").unwrap()],
        ..Game::default()
    };
    let before = game.clone();
    assert!(!catalog.enrich(&mut game));
    assert_eq!(game, before);
}

#[test]
fn entities_are_resolved_in_both_names_and_elements() {
    // A catalog full of ampersands is the common case rather than an edge one, and they are
    // escaped wherever they appear: in the element the catalog names itself in, and in the
    // attributes carrying a game's name and a dump's product code.
    let dat = r#"<datafile>
          <header><name>Tom &amp; Jerry Collection</name></header>
          <game name="Tom &amp; Jerry (USA)">
            <description>Tom &amp; Jerry (USA)</description>
            <rom name="a" size="1" serial="DMG-T&amp;J-USA" crc="11111111"/>
          </game>
        </datafile>"#;
    let catalog = Catalog::parse(dat).expect("parses");

    assert_eq!(catalog.name.as_deref(), Some("Tom & Jerry Collection"));
    assert_eq!(catalog.entries()[0].name, "Tom & Jerry (USA)");
    assert_eq!(catalog.entries()[0].serial.as_deref(), Some("DMG-T&J-USA"));
}

#[test]
fn a_malformed_digest_fails_the_whole_catalog() {
    // Skipping the digest and keeping the entry would leave a dump that still matches on
    // size and name, so a typo would resolve to the wrong game rather than to none.
    let bad = r#"<datafile><game name="g"><description>g</description>
            <rom name="a.gb" size="4" crc="zzzzzzzz"/></game></datafile>"#;
    assert!(Catalog::parse(bad).is_err(), "a bad digest must not be silently dropped");
    assert!(Catalog::parse("game ( name g rom ( name a size 4 crc zzzzzzzz ) )").is_err());
}

#[test]
fn the_clrmamepro_dialects_are_read_as_published() {
    // None of this is hypothetical: `sample` is a bare scalar where `rom` is a block, ckmame
    // writes `crc32` where ClrMamePro writes `crc`, MAME's `-listinfo` names its header block
    // `emulator`, and a set may be spelled `set` rather than `game`.
    let dat = r#"emulator (
	name "MAME"
)

set (
	name pacman
	description "PuckMan (Japan set 1)"
	rom ( name namcopac.6e size 4096 crc32 0xfee263b3 )
	sample shot.wav
	sampleof galaxian
)
"#;
    let catalog = Catalog::parse(dat).expect("parses");
    assert_eq!(catalog.name.as_deref(), Some("MAME"));
    assert_eq!(catalog.len(), 1);
    assert_eq!(catalog.entries()[0].name, "pacman");
    // `0x`-prefixed and bare digests are the same digest.
    let crc = hash_from_hex(HashAlgorithm::Crc32, "fee263b3").expect("hex");
    assert_eq!(catalog.lookup(&crc).map(|e| e.rom_name.as_str()), Some("namcopac.6e"));
}

#[test]
fn an_unreadable_catalog_is_refused_as_not_a_catalog() {
    match Catalog::parse("") {
        Err(Error::NotThisFormat { format, why }) => {
            assert_eq!(format, "DAT catalog");
            assert!(!why.is_empty());
        }
        other => panic!("expected a refusal, got {other:?}"),
    }
}

#[test]
fn the_first_entry_listing_a_digest_answers_for_it() {
    let dat = r#"<datafile>
          <game name="First"><rom name="a" size="1" crc="22222222"/></game>
          <game name="Second"><rom name="b" size="1" crc="22222222"/></game>
        </datafile>"#;
    let catalog = Catalog::parse(dat).expect("parses");
    let crc = hash_from_hex(HashAlgorithm::Crc32, "22222222").unwrap();
    assert_eq!(catalog.lookup(&crc).map(|e| e.name.as_str()), Some("First"));
    assert!(!catalog.is_empty());
}

#[test]
fn a_dump_with_every_digest_keeps_them_in_tag_order() {
    let dat = r#"<datafile><game name="g"><rom name="g.rom" size="5"
        crc="3610a686" md5="5d41402abc4b2a76b9719d911017c592"
        sha1="aaf4c61ddcc5e8a2dabede0f3b482cd9aea9434d"
        sha256="2cf24dba5fb0a30e26e83b2ac5b9e29e1b161e5c1fa7425e73043362938b9824"/></game></datafile>"#;
    let catalog = Catalog::parse(dat).expect("parses");
    let entry = &catalog.entries()[0];
    assert_eq!(
        algorithms(&entry.hashes),
        vec![HashAlgorithm::Sha256, HashAlgorithm::Sha1, HashAlgorithm::Crc32, HashAlgorithm::Md5]
    );
    assert_eq!(entry.hashes[2].digest, vec![0x36, 0x10, 0xa6, 0x86]);
    // The ROM's own digests find it, whichever it is looked up by.
    let rom = onesaves::rom::hashes(b"hello");
    assert_eq!(catalog.lookup_any(&rom).map(|e| e.name.as_str()), Some("g"));
    for hash in &rom {
        assert_eq!(catalog.lookup(hash).map(|e| e.name.as_str()), Some("g"));
    }
}
