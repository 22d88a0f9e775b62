use onesaves::rom::{game_from_rom, hashes, identify, HashAlgorithm};

const GB_LOGO: [u8; 8] = [0xCE, 0xED, 0x66, 0x66, 0xCC, 0x0D, 0x00, 0x0B];

fn gb_rom(title: &[u8], cgb: u8) -> Vec<u8> {
    let mut rom = vec![0u8; 0x8000];
    rom[0x104..0x104 + 8].copy_from_slice(&GB_LOGO);
    rom[0x134..0x134 + title.len()].copy_from_slice(title);
    rom[0x143] = cgb;
    rom
}

#[test]
fn reads_a_game_boy_title() {
    let rom = gb_rom(b"POKEMON RED", 0x00);
    let info = identify(&rom).expect("a Game Boy ROM");
    assert_eq!(info.system, Some("gb"));
    assert_eq!(info.title.as_deref(), Some("POKEMON RED"));
}

#[test]
fn a_colour_cartridge_does_not_take_the_flag_byte_as_a_title_character() {
    let mut rom = gb_rom(b"ZELDA DIN", 0xC0);
    rom[0x134..0x134 + 15].copy_from_slice(b"ZELDA DIN\0\0\0\0\0\0");
    let info = identify(&rom).expect("a Game Boy Color ROM");
    assert_eq!(info.system, Some("gbc"));
    assert_eq!(info.title.as_deref(), Some("ZELDA DIN"));
}

#[test]
fn reads_a_gba_code_and_prefers_it_over_the_game_boy_parser() {
    let mut rom = vec![0u8; 0x200];
    rom[0xA0..0xAC].copy_from_slice(b"POKEMON RUBY");
    rom[0xAC..0xB0].copy_from_slice(b"AXVE");
    rom[0xB2] = 0x96;
    let info = identify(&rom).expect("a GBA ROM");
    assert_eq!(info.system, Some("gba"));
    assert_eq!(info.title.as_deref(), Some("POKEMON RUBY"));
    assert_eq!(info.serial.as_deref(), Some("AXVE"));
}

#[test]
fn reads_an_n64_header_in_all_three_byte_orders() {
    let mut native = vec![0u8; 0x40];
    native[..4].copy_from_slice(&0x8037_1240u32.to_be_bytes());
    native[0x20..0x20 + 14].copy_from_slice(b"SUPER MARIO 64");
    native[0x3B..0x3F].copy_from_slice(b"NSME");

    let byteswapped: Vec<u8> = native.chunks(2).flat_map(|w| [w[1], w[0]]).collect();
    let little: Vec<u8> = native.chunks(4).flat_map(|w| [w[3], w[2], w[1], w[0]]).collect();

    for (name, rom) in [("z64", &native), ("v64", &byteswapped), ("n64", &little)] {
        let info = identify(rom).unwrap_or_else(|| panic!("{name} should parse"));
        assert_eq!(info.system, Some("n64"), "{name}");
        assert_eq!(info.title.as_deref(), Some("SUPER MARIO 64"), "{name}");
        assert_eq!(info.serial.as_deref(), Some("NSME"), "{name}");
    }
}

#[test]
fn reads_a_mega_drive_serial() {
    let mut rom = vec![0x20u8; 0x200];
    rom[0x100..0x110].copy_from_slice(b"SEGA MEGA DRIVE ");
    rom[0x150..0x160].copy_from_slice(b"SONIC THE HEDGEH");
    rom[0x160..0x180].fill(0x20);
    rom[0x183..0x18E].copy_from_slice(b"GM 00001009");
    let info = identify(&rom).expect("a Mega Drive ROM");
    assert_eq!(info.system, Some("genesis"));
    assert_eq!(info.serial.as_deref(), Some("GM 00001009"));
    assert_eq!(info.title.as_deref(), Some("SONIC THE HEDGEH"));
}

#[test]
fn a_mega_drive_without_an_international_name_falls_back_to_the_domestic_one() {
    let mut rom = vec![0x20u8; 0x200];
    rom[0x100..0x104].copy_from_slice(b"SEGA");
    rom[0x120..0x128].copy_from_slice(b"DOMESTIC");
    let info = identify(&rom).expect("a Mega Drive ROM");
    assert_eq!(info.title.as_deref(), Some("DOMESTIC"));
    assert_eq!(info.serial, None);
}

#[test]
fn finds_the_snes_header_only_where_the_checksum_agrees() {
    let mut rom = vec![0u8; 0x10000];
    let at = 0x7FC0;
    rom[at..at + 21].copy_from_slice(b"SUPER MARIOWORLD     ");
    rom[at + 0x1C..at + 0x1E].copy_from_slice(&0x1234u16.to_le_bytes());
    rom[at + 0x1E..at + 0x20].copy_from_slice(&(!0x1234u16).to_le_bytes());

    let info = identify(&rom).expect("a SNES ROM");
    assert_eq!(info.system, Some("snes"));
    assert_eq!(info.title.as_deref(), Some("SUPER MARIOWORLD"));

    rom[at + 0x1E] ^= 0xFF;
    assert_eq!(identify(&rom), None);
}

#[test]
fn reads_an_ines_file_as_a_nes_rom_with_nothing_to_say() {
    let mut rom = vec![0u8; 32];
    rom[..4].copy_from_slice(b"NES\x1A");
    let info = identify(&rom).expect("an iNES file");
    assert_eq!(info.system, Some("nes"));
    assert_eq!((info.title, info.serial), (None, None));
}

#[test]
fn declines_a_file_that_is_not_a_rom() {
    assert_eq!(identify(&[0u8; 4096]), None);
    assert_eq!(identify(b"just some bytes"), None);
}

fn hex(bytes: &[u8]) -> String {
    bytes.iter().map(|b| format!("{b:02x}")).collect()
}

#[test]
fn hashes_come_out_in_ascending_tag_order() {
    let hashes = hashes(b"");
    let algorithms: Vec<HashAlgorithm> = hashes.iter().map(|h| h.algorithm).collect();
    assert_eq!(algorithms, vec![HashAlgorithm::Sha256, HashAlgorithm::Sha1, HashAlgorithm::Crc32, HashAlgorithm::Md5]);
    assert_eq!(hex(&hashes[0].digest), "e3b0c44298fc1c149afbf4c8996fb92427ae41e4649b934ca495991b7852b855");
    assert_eq!(hex(&hashes[1].digest), "da39a3ee5e6b4b0d3255bfef95601890afd80709");
    assert_eq!(hex(&hashes[2].digest), "00000000");
    assert_eq!(hex(&hashes[3].digest), "d41d8cd98f00b204e9800998ecf8427e");
}

#[test]
fn hashes_of_some_bytes_are_the_known_digests() {
    let hashes = hashes(b"abc");
    assert_eq!(hex(&hashes[0].digest), "ba7816bf8f01cfea414140de5dae2223b00361a396177a9cb410ff61f20015ad");
    assert_eq!(hex(&hashes[1].digest), "a9993e364706816aba3e25717850c26c9cd0d89d");
    assert_eq!(hex(&hashes[2].digest), "352441c2");
    assert_eq!(hex(&hashes[3].digest), "900150983cd24fb0d6963f7d28e17f72");
}

#[test]
fn a_game_map_from_a_rom_carries_everything_it_can() {
    let rom = gb_rom(b"POKEMON RED", 0x00);
    let game = game_from_rom(&rom, Some("pokemon_red.gb"));
    assert_eq!(game.title.as_deref(), Some("POKEMON RED"));
    assert_eq!(game.rom_filename.as_deref(), Some("pokemon_red.gb"));
    assert_eq!(game.rom_hashes.len(), 4);
    assert!(!game.is_empty());
}

#[test]
fn a_file_that_is_not_a_rom_still_carries_its_name_and_digests() {
    let game = game_from_rom(b"just some bytes", None);
    assert_eq!((&game.title, &game.serial, game.system, &game.rom_filename), (&None, &None, None, &None));
    assert_eq!(game.rom_hashes, hashes(b"just some bytes"));
    assert!(!game.is_empty());
    assert!(onesaves::rom::Game::default().is_empty());
}
