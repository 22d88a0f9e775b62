use onesaves::gc::writer::CardBuilder;
use onesaves::gc::{
    checksum, detect, directory_is_valid, stamp_directory_checksum, stamp_table_checksum, table_is_valid,
    Error, MemoryCard, Save, BAT_BLOCK, BAT_MIRROR_BLOCK, BLOCK, CHAIN_END, DIR_BLOCK, DIR_MIRROR_BLOCK, ENTRY_LEN,
    MAP_OFFSET, RESERVED_BLOCKS,
};

fn default_header(blocks: usize) -> Vec<u8> {
    let mut header = vec![0xFFu8; BLOCK];
    let megabits = u16::try_from(blocks * BLOCK / (1024 * 1024 / 8)).unwrap_or(4);
    header[0x20..0x22].copy_from_slice(&megabits.to_be_bytes());
    header[0x22..0x24].copy_from_slice(&0u16.to_be_bytes());
    let (sum, inverse) = checksum(&header[..0x1FC]);
    header[0x1FC..0x1FE].copy_from_slice(&sum.to_be_bytes());
    header[0x1FE..0x200].copy_from_slice(&inverse.to_be_bytes());
    header
}

/// A card holding the given saves, as a console would have left it.
fn card_with(blocks: usize, saves: &[(&str, &str, usize)]) -> Vec<u8> {
    let mut card = vec![0xFFu8; blocks * BLOCK];
    let mut directory = vec![0xFFu8; BLOCK];
    let mut table = vec![0u8; BLOCK];

    let mut next = RESERVED_BLOCKS;
    for (index, (code, name, count)) in saves.iter().enumerate() {
        let first = next;
        for step in 0..*count {
            let current = first + step;
            for byte in 0..BLOCK {
                card[current * BLOCK + byte] = u8::try_from((byte + current * 17) & 0xff).expect("a byte");
            }
            let link = if step + 1 == *count { CHAIN_END } else { u16::try_from(current + 1).unwrap() };
            let at = MAP_OFFSET + (current - RESERVED_BLOCKS) * 2;
            table[at..at + 2].copy_from_slice(&link.to_be_bytes());
        }
        let entry = &mut directory[index * ENTRY_LEN..(index + 1) * ENTRY_LEN];
        entry.fill(0);
        entry[..6].copy_from_slice(code.as_bytes());
        entry[6] = 0xFF;
        entry[8..8 + name.len()].copy_from_slice(name.as_bytes());
        entry[0x36..0x38].copy_from_slice(&u16::try_from(first).unwrap().to_be_bytes());
        entry[0x38..0x3A].copy_from_slice(&u16::try_from(*count).unwrap().to_be_bytes());
        next += count;
    }

    let free = u16::try_from(blocks - next).unwrap();
    table[4..6].copy_from_slice(&0u16.to_be_bytes());
    table[6..8].copy_from_slice(&free.to_be_bytes());
    table[8..10].copy_from_slice(&u16::try_from(next - 1).unwrap().to_be_bytes());
    directory[BLOCK - 6..BLOCK - 4].copy_from_slice(&0u16.to_be_bytes());
    stamp_directory_checksum(&mut directory);
    stamp_table_checksum(&mut table);

    card[..BLOCK].copy_from_slice(&default_header(blocks));
    card[DIR_BLOCK * BLOCK..(DIR_BLOCK + 1) * BLOCK].copy_from_slice(&directory);
    card[DIR_MIRROR_BLOCK * BLOCK..(DIR_MIRROR_BLOCK + 1) * BLOCK].copy_from_slice(&directory);
    card[BAT_BLOCK * BLOCK..(BAT_BLOCK + 1) * BLOCK].copy_from_slice(&table);
    card[BAT_MIRROR_BLOCK * BLOCK..(BAT_MIRROR_BLOCK + 1) * BLOCK].copy_from_slice(&table);
    card
}

fn block(bytes: &[u8], index: usize) -> &[u8] {
    &bytes[index * BLOCK..(index + 1) * BLOCK]
}

#[test]
fn a_checksum_landing_on_all_ones_is_folded_to_zero() {
    assert_eq!(checksum(&[0xFF, 0xFF]), (0, 0));
    assert_eq!(checksum(&[0xFF, 0xFF, 0xFF, 0xFF]), (0xFFFE, 0));
}

#[test]
fn a_checksum_sums_words_and_their_complements() {
    assert_eq!(checksum(&[0x12, 0x34, 0x00, 0x01]), (0x1235, 0xEDC9));
    // A trailing odd byte is left out.
    assert_eq!(checksum(&[0x12, 0x34, 0x99]), checksum(&[0x12, 0x34]));
    assert_eq!(checksum(&[]), (0, 0));
}

#[test]
fn the_two_regions_are_checksummed_the_opposite_way_round() {
    let mut directory = vec![0u8; BLOCK];
    directory[100] = 0x42;
    stamp_directory_checksum(&mut directory);
    assert!(directory_is_valid(&directory));

    let mut table = vec![0u8; BLOCK];
    table[100] = 0x42;
    stamp_table_checksum(&mut table);
    assert!(table_is_valid(&table));
    assert_ne!(&table[..4], &[0, 0, 0, 0], "the table's checksum is at its front");
}

#[test]
fn lib_reads_saves_and_keeps_the_header_block() {
    let card = card_with(64, &[("GAFE01", "super_mario_sunshine", 2), ("GM4E01", "PSO_SYSTEM", 1)]);
    let parsed = MemoryCard::parse(&card).expect("reads");

    assert_eq!(parsed.saves().len(), 2);
    assert_eq!(parsed.saves()[0].filename, "super_mario_sunshine");
    assert_eq!(parsed.saves()[0].game_code, "GAFE");
    assert_eq!(parsed.saves()[0].maker_code, "01");
    assert_eq!(parsed.saves()[0].data.len(), 2 * BLOCK);
    assert_eq!(parsed.saves()[0].dirent.len(), ENTRY_LEN);
    assert_eq!(parsed.capacity(), (64 - 5) * BLOCK);
    assert_eq!(parsed.header_block().len(), BLOCK);
    assert_eq!(parsed.blocks(), 64);
}

#[test]
fn a_stale_mirror_loses_to_the_one_counted_higher() {
    let card = card_with(64, &[("GAFE01", "current", 1)]);
    let mut tampered = card.clone();

    let mut stale = block(&card, DIR_BLOCK).to_vec();
    stale[8..8 + 7].copy_from_slice(b"OLDNAME");
    stale[BLOCK - 6..BLOCK - 4].copy_from_slice(&0u16.to_be_bytes());
    stamp_directory_checksum(&mut stale);

    let mut fresh = block(&card, DIR_BLOCK).to_vec();
    fresh[BLOCK - 6..BLOCK - 4].copy_from_slice(&1u16.to_be_bytes());
    stamp_directory_checksum(&mut fresh);

    tampered[DIR_BLOCK * BLOCK..(DIR_BLOCK + 1) * BLOCK].copy_from_slice(&stale);
    tampered[DIR_MIRROR_BLOCK * BLOCK..(DIR_MIRROR_BLOCK + 1) * BLOCK].copy_from_slice(&fresh);

    let parsed = MemoryCard::parse(&tampered).expect("reads");
    assert_eq!(parsed.saves()[0].filename, "current", "the higher counter wins");
}

#[test]
fn a_corrupt_primary_falls_back_to_its_mirror() {
    let card = card_with(64, &[("GAFE01", "onlycopy", 1)]);
    let mut tampered = card.clone();
    tampered[DIR_BLOCK * BLOCK + 100] ^= 0xFF;

    let parsed = MemoryCard::parse(&tampered).expect("reads through the mirror");
    assert_eq!(parsed.saves()[0].filename, "onlycopy");
}

#[test]
fn refuses_a_gc_chain_that_loops() {
    let mut card = card_with(64, &[("GAFE01", "loop", 2)]);
    let mut table = block(&card, BAT_BLOCK).to_vec();
    let at = MAP_OFFSET + 2;
    table[at..at + 2].copy_from_slice(&u16::try_from(RESERVED_BLOCKS).unwrap().to_be_bytes());
    stamp_table_checksum(&mut table);
    card[BAT_BLOCK * BLOCK..(BAT_BLOCK + 1) * BLOCK].copy_from_slice(&table);
    card[BAT_MIRROR_BLOCK * BLOCK..(BAT_MIRROR_BLOCK + 1) * BLOCK].copy_from_slice(&table);

    assert!(matches!(MemoryCard::parse(&card), Err(Error::Corrupt(_))));
}

#[test]
fn refuses_a_card_whose_tables_both_fail() {
    let mut card = card_with(64, &[("GAFE01", "x", 1)]);
    card[BAT_BLOCK * BLOCK + 100] ^= 0xFF;
    card[BAT_MIRROR_BLOCK * BLOCK + 100] ^= 0xFF;
    assert!(matches!(MemoryCard::parse(&card), Err(Error::Corrupt(_))));
}

#[test]
fn detects_a_formatted_card_and_not_a_file_of_the_right_length() {
    let card = card_with(64, &[("GAFE01", "x", 1)]);
    assert!(detect(&card));
    assert!(!detect(&vec![0u8; 64 * BLOCK]));
    assert!(!detect(&vec![0u8; 63 * BLOCK]));
    assert!(matches!(MemoryCard::parse(&vec![0u8; 64 * BLOCK]), Err(Error::NotAMemoryCard)));
    assert!(matches!(MemoryCard::parse(&vec![0u8; 63 * BLOCK]), Err(Error::WrongLength(_))));
}

fn round_trip(card: &[u8]) -> Vec<u8> {
    let parsed = MemoryCard::parse(card).expect("reads");
    let mut builder = CardBuilder::new();
    builder.header_block(parsed.header_block().to_vec()).capacity(parsed.capacity());
    for save in parsed.saves() {
        builder.add(save.clone());
    }
    builder.build().expect("writes")
}

#[test]
fn build_a_card_a_console_wrote_is_rebuilt_byte_for_byte() {
    let card = card_with(64, &[("GAFE01", "super_mario_sunshine", 2), ("GM4E01", "PSO_SYSTEM", 1)]);
    assert_eq!(round_trip(&card), card);
}

#[test]
fn a_save_built_by_hand_gets_an_entry_carrying_its_codes() {
    let mut builder = CardBuilder::new();
    builder.add(Save {
        slot: 0,
        game_code: "GAFE".into(),
        maker_code: "01".into(),
        filename: "super_mario_sunshine".into(),
        dirent: Vec::new(),
        data: vec![5u8; BLOCK],
    });
    let card = builder.build().expect("writes");

    let parsed = MemoryCard::parse(&card).expect("reads what it wrote");
    assert_eq!(parsed.saves().len(), 1);
    assert_eq!(parsed.saves()[0].game_code, "GAFE");
    assert_eq!(parsed.saves()[0].maker_code, "01");
    assert_eq!(parsed.saves()[0].filename, "super_mario_sunshine");
    assert_eq!(parsed.saves()[0].data, vec![5u8; BLOCK]);
}

#[test]
fn a_capacity_no_card_comes_in_is_ignored_rather_than_honoured() {
    let mut builder = CardBuilder::new();
    builder.capacity(12_345).add(Save {
        slot: 0,
        game_code: "GAFE".into(),
        maker_code: "01".into(),
        filename: "x".into(),
        dirent: Vec::new(),
        data: vec![0u8; BLOCK],
    });
    let card = builder.build().expect("writes");
    assert_eq!(card.len(), 64 * BLOCK);
}

#[test]
fn refuses_saves_that_do_not_fit_the_card_they_asked_for() {
    let mut builder = CardBuilder::new();
    builder.capacity((64 - RESERVED_BLOCKS) * BLOCK).add(Save {
        slot: 0,
        game_code: "GAFE".into(),
        maker_code: "01".into(),
        filename: "big".into(),
        dirent: Vec::new(),
        data: vec![0u8; 100 * BLOCK],
    });
    assert!(matches!(builder.build(), Err(Error::Full { needed: 100, available: 59 })));
}

#[test]
fn without_a_capacity_the_smallest_card_that_fits_is_written() {
    let mut builder = CardBuilder::new();
    builder.add(Save {
        slot: 0,
        game_code: "GAFE".into(),
        maker_code: "01".into(),
        filename: "big".into(),
        dirent: Vec::new(),
        data: vec![1u8; 60 * BLOCK],
    });
    let card = builder.build().expect("writes");
    assert_eq!(card.len(), 128 * BLOCK);
    assert!(detect(&card));
    let parsed = MemoryCard::parse(&card).expect("reads");
    assert_eq!(parsed.capacity(), (128 - RESERVED_BLOCKS) * BLOCK);
}

#[test]
fn codes_a_save_did_not_state_are_written_as_dashes() {
    let mut builder = CardBuilder::new();
    builder.add(Save {
        slot: 0,
        game_code: "GA".into(),
        maker_code: String::new(),
        filename: "f".into(),
        dirent: Vec::new(),
        data: vec![1u8; 10],
    });
    let card = builder.build().expect("writes");
    let entry = &card[DIR_BLOCK * BLOCK..DIR_BLOCK * BLOCK + ENTRY_LEN];
    assert_eq!(&entry[..6], b"GA----");
    assert_eq!(entry[6], 0xFF);
    assert_eq!(&entry[0x3A..0x3C], &[0xFF, 0xFF]);
    // The last block is filled out with erased bytes, not zeros.
    let data = &card[RESERVED_BLOCKS * BLOCK..(RESERVED_BLOCKS + 1) * BLOCK];
    assert!(data[..10].iter().all(|&b| b == 1));
    assert!(data[10..].iter().all(|&b| b == 0xFF));
}

#[test]
fn more_than_a_card_of_saves_is_refused_by_the_largest_size() {
    let mut builder = CardBuilder::new();
    builder.add(Save {
        slot: 0,
        game_code: "GAFE".into(),
        maker_code: "01".into(),
        filename: "huge".into(),
        dirent: Vec::new(),
        data: vec![0u8; 2044 * BLOCK],
    });
    assert!(matches!(builder.build(), Err(Error::Full { needed: 2044, available: 2043 })));
}
