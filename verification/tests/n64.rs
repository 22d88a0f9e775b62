use onesaves::n64::font;
use onesaves::n64::writer::PakBuilder;
use onesaves::n64::{
    detect, ControllerPak, Error, Note, NOTES, CAPACITY, CHAIN_END, CHAIN_FREE, FIRST_DATA_PAGE, INDEX_BACKUP_PAGE,
    INDEX_PAGE, NOTE_ENTRY, NOTE_TABLE_PAGE, PAGE, PAGES,
};

/// A pak holding the given notes, as a console would have left it.
fn pak_with(notes: &[(&str, &str, usize)]) -> Vec<u8> {
    let mut pak = vec![0u8; CAPACITY];
    pak[..NOTE_ENTRY].copy_from_slice(&[0xAAu8; NOTE_ENTRY]);

    let mut index = vec![CHAIN_FREE; PAGES];
    for entry in index.iter_mut().take(FIRST_DATA_PAGE) {
        *entry = 0;
    }

    let mut next = FIRST_DATA_PAGE;
    for (slot, (code, name, pages)) in notes.iter().enumerate() {
        let first = next;
        for step in 0..*pages {
            let page = first + step;
            for byte in 0..PAGE {
                pak[page * PAGE + byte] = u8::try_from((byte + page * 13) & 0xff).expect("a byte");
            }
            index[page] = if step + 1 == *pages { CHAIN_END } else { u16::try_from(page + 1).expect("page fits") };
        }
        let offset = NOTE_TABLE_PAGE * PAGE + slot * NOTE_ENTRY;
        pak[offset..offset + 4].copy_from_slice(code.as_bytes());
        pak[offset + 6..offset + 8].copy_from_slice(&u16::try_from(first).expect("page fits").to_be_bytes());
        pak[offset + 0x10..offset + 0x20].copy_from_slice(&font::encode(name, 16));
        next += pages;
    }
    for (page, entry) in index.iter().enumerate() {
        let bytes = entry.to_be_bytes();
        pak[INDEX_PAGE * PAGE + page * 2..][..2].copy_from_slice(&bytes);
        pak[INDEX_BACKUP_PAGE * PAGE + page * 2..][..2].copy_from_slice(&bytes);
    }
    pak
}

#[test]
fn the_font_table_is_not_ascii() {
    assert_eq!(font::decode_char(15), ' ');
    assert_eq!(font::decode_char(16), '0');
    assert_eq!(font::decode_char(26), 'A');
    assert_eq!(font::decode(&[26, 27, 28, 15, 15]), "ABC");
    assert_eq!(font::encode_char('A'), 26);
    assert_eq!(font::encode_char('0'), 16);
    assert_eq!(font::encode("AB", 4), vec![26, 27, 0, 0]);
}

#[test]
fn every_code_decodes_as_the_table_lists_it() {
    let listed: Vec<char> = font::CHARSET.chars().collect();
    for code in 0..=255u8 {
        let want = listed.get(code as usize).copied().unwrap_or('\0');
        assert_eq!(font::decode_char(code), want, "code {code}");
    }
}

#[test]
fn every_character_encodes_to_its_first_listing() {
    for c in ['\0', ' ', '0', '9', 'A', 'Z', 'a', 'z', '!', '"', '#', '`', '*', '+', ',', '-', '.', '/', ':', '=', '?', '@', '~', 'é'] {
        let upper = c.to_ascii_uppercase();
        let want = font::CHARSET.chars().position(|x| x == upper).map_or(15, |p| p as u8);
        assert_eq!(font::encode_char(c), want, "{c:?}");
    }
}

#[test]
fn decoding_keeps_inner_spacing_and_drops_unlisted_codes() {
    assert_eq!(font::decode(&[26, 15, 27, 0, 28]), "A BC");
    assert_eq!(font::decode(&[15, 15]), "");
}

#[test]
fn lib_reads_notes_and_keeps_the_pak_label() {
    let pak = pak_with(&[("NMKJ", "MARIOKART", 2), ("NSMJ", "SUPERMARIO", 1)]);
    let parsed = ControllerPak::parse(&pak).expect("reads");

    assert_eq!(parsed.notes().len(), 2);
    assert_eq!(parsed.notes()[0].name, "MARIOKART");
    assert_eq!(parsed.notes()[0].game_code, "NMKJ");
    assert_eq!(parsed.notes()[0].data.len(), 2 * PAGE);
    assert_eq!(parsed.notes()[0].dirent.len(), NOTE_ENTRY);
    assert_eq!(parsed.label(), [0xAAu8; NOTE_ENTRY]);
    assert_eq!(parsed.capacity(), CAPACITY);
    assert!(detect(&pak));
}

#[test]
fn lib_two_notes_of_one_game_stay_distinct_by_slot() {
    let pak = pak_with(&[("NMKJ", "GHOST", 1), ("NMKJ", "GHOST", 1)]);
    let parsed = ControllerPak::parse(&pak).expect("reads");
    assert_eq!(parsed.notes()[0].path(), parsed.notes()[1].path());
    assert_ne!(parsed.notes()[0].slot, parsed.notes()[1].slot);
}

#[test]
fn a_name_and_extension_read_back_as_one_path() {
    let mut pak = pak_with(&[("NMKJ", "SAVE", 1)]);
    let offset = NOTE_TABLE_PAGE * PAGE + 0x0C;
    pak[offset..offset + 4].copy_from_slice(&font::encode("DAT", 4));
    let parsed = ControllerPak::parse(&pak).expect("reads");
    assert_eq!(parsed.notes()[0].path(), "SAVE.DAT");
}

#[test]
fn refuses_a_pak_chain_that_loops() {
    let mut pak = pak_with(&[("NMKJ", "LOOP", 2)]);
    let entry = u16::try_from(FIRST_DATA_PAGE).expect("page fits").to_be_bytes();
    pak[INDEX_PAGE * PAGE + (FIRST_DATA_PAGE + 1) * 2..][..2].copy_from_slice(&entry);
    pak[INDEX_BACKUP_PAGE * PAGE + (FIRST_DATA_PAGE + 1) * 2..][..2].copy_from_slice(&entry);
    assert!(matches!(ControllerPak::parse(&pak), Err(Error::Corrupt(_))));
}

#[test]
fn falls_back_to_the_backup_index_table() {
    let mut pak = pak_with(&[("NMKJ", "MARIOKART", 2)]);
    pak[INDEX_PAGE * PAGE + FIRST_DATA_PAGE * 2..][..2].copy_from_slice(&0xBEEFu16.to_be_bytes());
    let parsed = ControllerPak::parse(&pak).expect("reads through the backup");
    assert_eq!(parsed.notes()[0].name, "MARIOKART");
    assert!(!detect(&pak));
}

#[test]
fn refuses_a_pak_whose_index_tables_both_fail() {
    let mut pak = pak_with(&[]);
    pak[INDEX_PAGE * PAGE + FIRST_DATA_PAGE * 2..][..2].copy_from_slice(&0xBEEFu16.to_be_bytes());
    pak[INDEX_BACKUP_PAGE * PAGE + FIRST_DATA_PAGE * 2..][..2].copy_from_slice(&0xBEEFu16.to_be_bytes());
    assert!(matches!(ControllerPak::parse(&pak), Err(Error::NotAControllerPak)));
}

#[test]
fn refuses_something_that_is_not_a_pak() {
    assert!(matches!(ControllerPak::parse(&[1, 2, 3]), Err(Error::WrongLength(3))));
    assert!(!detect(&[1, 2, 3]));
}

fn round_trip(pak: &[u8]) -> Vec<u8> {
    let parsed = ControllerPak::parse(pak).expect("reads");
    let mut builder = PakBuilder::new();
    builder.label(parsed.label().to_vec());
    for note in parsed.notes() {
        builder.add(note.clone());
    }
    builder.build().expect("writes")
}

#[test]
fn a_pak_a_console_wrote_is_rebuilt_byte_for_byte() {
    let pak = pak_with(&[("NMKJ", "MARIOKART", 2), ("NSMJ", "SUPERMARIO", 1)]);
    assert_eq!(round_trip(&pak), pak);
}

#[test]
fn a_note_built_by_hand_gets_an_entry_carrying_its_name() {
    let mut builder = PakBuilder::new();
    builder.add(Note {
        slot: 0,
        game_code: "NMKJ".into(),
        name: "GHOST".into(),
        extension: "DAT".into(),
        dirent: Vec::new(),
        data: vec![9u8; PAGE],
    });
    let pak = builder.build().expect("writes");

    let parsed = ControllerPak::parse(&pak).expect("reads what it wrote");
    assert_eq!(parsed.notes().len(), 1);
    assert_eq!(parsed.notes()[0].game_code, "NMKJ");
    assert_eq!(parsed.notes()[0].path(), "GHOST.DAT");
    assert_eq!(parsed.notes()[0].data, vec![9u8; PAGE]);
}

#[test]
fn refuses_more_notes_than_the_table_holds() {
    let mut builder = PakBuilder::new();
    for index in 0..=NOTES {
        builder.add(Note {
            slot: 0,
            game_code: "NMKJ".into(),
            name: format!("N{index}"),
            extension: String::new(),
            dirent: Vec::new(),
            data: vec![0u8; PAGE],
        });
    }
    assert!(matches!(builder.build(), Err(Error::TooManyNotes { given: 17, available: 16 })));
}

#[test]
fn refuses_notes_that_do_not_fit() {
    let mut builder = PakBuilder::new();
    for index in 0..2 {
        builder.add(Note {
            slot: 0,
            game_code: "NMKJ".into(),
            name: format!("BIG{index}"),
            extension: String::new(),
            dirent: Vec::new(),
            data: vec![0u8; 100 * PAGE],
        });
    }
    assert!(matches!(builder.build(), Err(Error::Full { needed: 200, available: 123 })));
}

#[test]
fn an_empty_pak_has_every_data_page_free_and_a_blank_table() {
    let pak = PakBuilder::new().build().expect("writes");
    assert_eq!(pak.len(), CAPACITY);
    assert!(pak[..PAGE].iter().all(|&b| b == 0));
    for page in 0..PAGES {
        let at = INDEX_PAGE * PAGE + page * 2;
        let word = u16::from_be_bytes([pak[at], pak[at + 1]]);
        assert_eq!(word, if page < FIRST_DATA_PAGE { 0 } else { CHAIN_FREE }, "{page}");
    }
    assert_eq!(&pak[INDEX_PAGE * PAGE..INDEX_BACKUP_PAGE * PAGE], &pak[INDEX_BACKUP_PAGE * PAGE..NOTE_TABLE_PAGE * PAGE]);
    assert!(pak[NOTE_TABLE_PAGE * PAGE..].iter().all(|&b| b == 0));
}

#[test]
fn a_long_label_is_cut_to_an_entry() {
    let mut builder = PakBuilder::new();
    builder.label(vec![0x41u8; 40]);
    let pak = builder.build().expect("writes");
    assert!(pak[..NOTE_ENTRY].iter().all(|&b| b == 0x41));
    assert!(pak[NOTE_ENTRY..PAGE].iter().all(|&b| b == 0));
}

#[test]
fn a_note_spanning_pages_is_chained_through_the_index() {
    let mut builder = PakBuilder::new();
    builder.add(Note {
        slot: 0,
        game_code: "NMKJ".into(),
        name: "A".into(),
        extension: String::new(),
        dirent: Vec::new(),
        data: vec![5u8; PAGE + 1],
    });
    let pak = builder.build().expect("writes");
    let word = |page: usize| {
        let at = INDEX_PAGE * PAGE + page * 2;
        u16::from_be_bytes([pak[at], pak[at + 1]])
    };
    assert_eq!(word(FIRST_DATA_PAGE), (FIRST_DATA_PAGE + 1) as u16);
    assert_eq!(word(FIRST_DATA_PAGE + 1), CHAIN_END);
    assert_eq!(pak[(FIRST_DATA_PAGE + 1) * PAGE], 5);
    assert_eq!(pak[(FIRST_DATA_PAGE + 1) * PAGE + 1], 0);
    let parsed = ControllerPak::parse(&pak).expect("reads");
    assert_eq!(parsed.notes()[0].data.len(), 2 * PAGE);
}

#[test]
fn a_name_written_into_a_field_reads_back() {
    for name in ["ABC", "MARIO KART 64", "0123456789", "A-B.C/D?", ""] {
        assert_eq!(font::decode(&font::encode(name, 16)), name, "{name}");
    }
    assert_eq!(font::decode(&font::encode("SUPERMARIO", 10)), "SUPERMARIO");
}
