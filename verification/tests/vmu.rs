use onesaves::vmu::writer::VmuBuilder;
use onesaves::vmu::{
    detect, entry_offset, Error, FileKind, Save, Vmu, BLOCK, BLOCKS, CHAIN_END, DIR_FIRST_BLOCK, ENTRY_LEN,
    FAT_BLOCK, FREE, IMAGE_LEN, ROOT_BLOCK, USER_BLOCKS,
};

fn root_block() -> Vec<u8> {
    let mut root = vec![0u8; BLOCK];
    root[..16].fill(0x55);
    root[0x40..0x42].copy_from_slice(&(FAT_BLOCK as u16).to_le_bytes());
    root[0x42..0x44].copy_from_slice(&1u16.to_le_bytes());
    root[0x44..0x46].copy_from_slice(&(DIR_FIRST_BLOCK as u16).to_le_bytes());
    root[0x46..0x48].copy_from_slice(&13u16.to_le_bytes());
    root[0x4A..0x4C].copy_from_slice(&(USER_BLOCKS as u16).to_le_bytes());
    root
}

/// A VMU holding the given saves, as a console would have left it.
fn vmu_with(saves: &[(&str, usize, FileKind)]) -> Vec<u8> {
    let mut image = vec![0u8; IMAGE_LEN];
    image[ROOT_BLOCK * BLOCK..].copy_from_slice(&root_block());

    let mut fat = [FREE; BLOCKS];
    for entry in &mut fat[USER_BLOCKS..] {
        *entry = CHAIN_END;
    }

    let mut next = 0usize;
    for (index, (name, blocks, kind)) in saves.iter().enumerate() {
        let first = next;
        for step in 0..*blocks {
            let current = first + step;
            for byte in 0..BLOCK {
                image[current * BLOCK + byte] = u8::try_from((byte + current * 11) & 0xff).expect("a byte");
            }
            fat[current] = if step + 1 == *blocks { CHAIN_END } else { u16::try_from(current + 1).unwrap() };
        }
        let at = entry_offset(index);
        image[at] = kind.as_byte();
        image[at + 2..at + 4].copy_from_slice(&u16::try_from(first).unwrap().to_le_bytes());
        image[at + 4..at + 4 + name.len()].copy_from_slice(name.as_bytes());
        image[at + 0x18..at + 0x1A].copy_from_slice(&u16::try_from(*blocks).unwrap().to_le_bytes());
        next += blocks;
    }
    for (index, entry) in fat.iter().enumerate() {
        let at = FAT_BLOCK * BLOCK + index * 2;
        image[at..at + 2].copy_from_slice(&entry.to_le_bytes());
    }
    image
}

#[test]
fn the_directory_grows_downward_from_block_253() {
    assert_eq!(entry_offset(0), DIR_FIRST_BLOCK * BLOCK);
    assert_eq!(entry_offset(15), DIR_FIRST_BLOCK * BLOCK + 15 * ENTRY_LEN);
    assert_eq!(entry_offset(16), (DIR_FIRST_BLOCK - 1) * BLOCK);
    assert_eq!(entry_offset(199), (DIR_FIRST_BLOCK - 12) * BLOCK + 7 * ENTRY_LEN);
}

#[test]
fn lib_reads_saves_and_keeps_the_colour_and_icon() {
    let image = vmu_with(&[("SONIC2___S01", 2, FileKind::Data), ("PSO_______", 1, FileKind::Data)]);
    let parsed = Vmu::parse(&image).expect("reads");

    assert_eq!(parsed.saves().len(), 2);
    assert_eq!(parsed.saves()[0].name, "SONIC2___S01");
    assert_eq!(parsed.saves()[0].kind, FileKind::Data);
    assert_eq!(parsed.saves()[0].data.len(), 2 * BLOCK);
    assert_eq!(parsed.saves()[0].dirent.len(), ENTRY_LEN);
    assert_eq!(parsed.capacity(), 102_400);
    assert_eq!(parsed.root_block().len(), BLOCK);
    assert_eq!(parsed.root_block(), &root_block()[..]);
    assert_eq!(parsed.image(), &image[..]);
}

#[test]
fn a_save_is_its_blocks_in_chain_order() {
    let image = vmu_with(&[("A", 1, FileKind::Game), ("B", 2, FileKind::Data)]);
    let parsed = Vmu::parse(&image).expect("reads");
    let saves = parsed.into_saves();
    assert_eq!(saves[0].kind, FileKind::Game);
    assert_eq!(saves[1].slot, 1);
    assert_eq!(saves[1].data, image[BLOCK..3 * BLOCK].to_vec());
}

#[test]
fn a_name_loses_its_trailing_padding() {
    let image = vmu_with(&[("PADDED  ", 1, FileKind::Data)]);
    let parsed = Vmu::parse(&image).expect("reads");
    assert_eq!(parsed.saves()[0].name, "PADDED");
}

#[test]
fn lib_refuses_a_chain_that_loops() {
    let mut image = vmu_with(&[("LOOP________", 2, FileKind::Data)]);
    let at = FAT_BLOCK * BLOCK + 2;
    image[at..at + 2].copy_from_slice(&0u16.to_le_bytes());
    assert!(matches!(Vmu::parse(&image), Err(Error::Corrupt(_))));
}

#[test]
fn refuses_a_chain_shorter_than_its_entry_says() {
    let mut image = vmu_with(&[("SHORT", 2, FileKind::Data)]);
    let at = FAT_BLOCK * BLOCK;
    image[at..at + 2].copy_from_slice(&CHAIN_END.to_le_bytes());
    assert!(matches!(Vmu::parse(&image), Err(Error::Corrupt(_))));
}

#[test]
fn lib_refuses_an_image_that_is_not_formatted() {
    let image = vec![0u8; IMAGE_LEN];
    assert!(!detect(&image));
    assert!(matches!(Vmu::parse(&image), Err(Error::NotFormatted)));
    assert!(matches!(Vmu::parse(&[1, 2, 3]), Err(Error::WrongLength(3))));
    assert!(detect(&vmu_with(&[])));
}

#[test]
fn a_type_byte_that_is_neither_is_not_a_save() {
    assert_eq!(FileKind::from_byte(0x33), Some(FileKind::Data));
    assert_eq!(FileKind::from_byte(0xCC), Some(FileKind::Game));
    assert_eq!(FileKind::from_byte(0), None);
}

#[test]
fn a_kind_comes_back_from_its_byte() {
    for kind in [FileKind::Data, FileKind::Game] {
        assert_eq!(FileKind::from_byte(kind.as_byte()), Some(kind));
    }
    assert_eq!(FileKind::default(), FileKind::Data);
}

fn round_trip(image: &[u8]) -> Vec<u8> {
    let parsed = Vmu::parse(image).expect("reads");
    let mut builder = VmuBuilder::new();
    builder.root_block(parsed.root_block().to_vec());
    for save in parsed.saves() {
        builder.add(save.clone());
    }
    builder.build().expect("writes")
}

#[test]
fn a_vmu_a_console_wrote_is_rebuilt_byte_for_byte() {
    let image = vmu_with(&[("SONIC2___S01", 2, FileKind::Data), ("PSO_______", 1, FileKind::Data)]);
    assert_eq!(round_trip(&image), image);
}

#[test]
fn build_a_minigame_is_placed_at_block_zero() {
    let image = vmu_with(&[("DATA________", 1, FileKind::Data), ("MINIGAME____", 3, FileKind::Game)]);
    let rebuilt = round_trip(&image);

    let reread = Vmu::parse(&rebuilt).expect("reads back");
    let game = reread.saves().iter().find(|save| save.kind == FileKind::Game).expect("survived");
    assert_eq!(u16::from_le_bytes([game.dirent[2], game.dirent[3]]), 0, "a mini-game starts at block 0");
    assert_eq!(game.slot, 1);
}

#[test]
fn a_save_built_by_hand_gets_an_entry_carrying_its_name() {
    let mut builder = VmuBuilder::new();
    builder.add(Save {
        slot: 0,
        kind: FileKind::Data,
        name: "SONIC2___S01".into(),
        dirent: Vec::new(),
        data: vec![3u8; BLOCK],
    });
    let image = builder.build().expect("writes");

    let parsed = Vmu::parse(&image).expect("reads what it wrote");
    assert_eq!(parsed.saves().len(), 1);
    assert_eq!(parsed.saves()[0].name, "SONIC2___S01");
    assert_eq!(parsed.saves()[0].kind, FileKind::Data);
    assert_eq!(parsed.saves()[0].data, vec![3u8; BLOCK]);
}

#[test]
fn refuses_saves_that_do_not_fit() {
    let mut builder = VmuBuilder::new();
    for index in 0..3 {
        builder.add(Save {
            slot: 0,
            kind: FileKind::Data,
            name: format!("BIG{index}"),
            dirent: Vec::new(),
            data: vec![0u8; 100 * BLOCK],
        });
    }
    assert!(matches!(builder.build(), Err(Error::Full { needed: 300, available: 200 })));
}

#[test]
fn refuses_a_save_with_no_bytes() {
    let mut builder = VmuBuilder::new();
    builder.add(Save { slot: 0, kind: FileKind::Data, name: "EMPTY".into(), dirent: Vec::new(), data: Vec::new() });
    assert!(matches!(builder.build(), Err(Error::EmptySave(_))));
}

#[test]
fn a_partial_last_block_is_padded_with_zeros() {
    let mut builder = VmuBuilder::new();
    builder.add(Save { slot: 0, kind: FileKind::Data, name: "A".into(), dirent: Vec::new(), data: vec![7u8; 600] });
    let image = builder.build().expect("writes");
    assert_eq!(image.len(), IMAGE_LEN);
    assert!(image[..600].iter().all(|&b| b == 7));
    assert!(image[600..2 * BLOCK].iter().all(|&b| b == 0));
    let parsed = Vmu::parse(&image).expect("reads");
    assert_eq!(parsed.saves()[0].data.len(), 2 * BLOCK);
    assert_eq!(u16::from_le_bytes([parsed.saves()[0].dirent[0x18], parsed.saves()[0].dirent[0x19]]), 2);
}

#[test]
fn more_saves_than_the_directory_holds_are_refused() {
    let mut builder = VmuBuilder::new();
    for _ in 0..201 {
        builder.add(Save { slot: 0, kind: FileKind::Data, name: "X".into(), dirent: Vec::new(), data: vec![1u8; 1] });
    }
    assert!(matches!(builder.build(), Err(Error::TooManySaves { given: 201, available: 200 })));
}

#[test]
fn a_root_block_of_the_wrong_length_is_replaced_by_a_fresh_one() {
    let mut builder = VmuBuilder::new();
    builder.root_block(vec![1u8; 10]);
    let image = builder.build().expect("writes");
    assert_eq!(&image[ROOT_BLOCK * BLOCK..], &root_block()[..]);
    assert!(detect(&image));
}
