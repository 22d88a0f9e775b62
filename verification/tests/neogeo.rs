use onesaves::neogeo::writer::CardBuilder;
use onesaves::neogeo::{
    detect, fat_checksum, strip_container, Container, Error, Geometry, MemoryCard, Region, Save, BLOCK,
    CHECKSUM_OFFSET, FAT_CHAIN_END, FAT_FREE, MISTER_BACKUP_RAM,
};

const SIZES: [usize; 8] = [2048, 4096, 6144, 8192, 10240, 12288, 14336, 16384];

/// A bare card of `size` bytes holding one save of `blocks` blocks for NGH `ngh`.
fn card_with(size: usize, saves: &[(u16, u8, &[u8])]) -> Vec<u8> {
    let g = Geometry::of(size).expect("a size cards come in");
    let mut card = vec![0u8; size];
    card[0x0A..0x0C].copy_from_slice(&g.size_word().to_be_bytes());
    for (i, c) in b"NEO-GEO\x80".iter().enumerate() {
        card[0x20 + i * 2] = *c;
        card[0x20 + i * 2 + 1] = ((0x20 + i * 2 + 1) * 2) as u8;
    }
    card[0x10..0x20].copy_from_slice(b"PLAYER ONE      ");
    card[0x30] = 1;
    let dir = g.directory_block * BLOCK;
    for entry in card[dir..dir + g.entries * 4].chunks_mut(4) {
        entry[0] = 0xFF;
    }
    for fat in [g.fat1_block, g.fat2_block] {
        let at = fat * BLOCK;
        for b in 0..g.first_data_block {
            card[at + b] = 2;
        }
    }
    let mut next = g.first_data_block;
    for (index, (ngh, sub, data)) in saves.iter().enumerate() {
        let blocks = data.len().div_ceil(BLOCK);
        let first = next;
        for step in 0..blocks {
            let block = first + step;
            let link = if step + 1 == blocks { 1 } else { (block + 1) as u8 };
            card[g.fat1_block * BLOCK + block] = link;
            card[g.fat2_block * BLOCK + block] = link;
        }
        card[first * BLOCK..first * BLOCK + data.len()].copy_from_slice(data);
        let at = dir + index * 4;
        card[at] = *sub;
        card[at + 1..at + 3].copy_from_slice(&ngh.to_be_bytes());
        card[at + 3] = first as u8;
        next += blocks;
    }
    card
}

fn mister(card: &[u8]) -> Vec<u8> {
    let mut out = vec![0x5Au8; MISTER_BACKUP_RAM];
    let mut region = vec![0u8; 0x2000];
    region[..card.len()].copy_from_slice(card);
    for word in region.chunks_mut(2) {
        word.swap(0, 1);
    }
    out.extend_from_slice(&region);
    out
}

#[test]
fn the_geometry_of_every_size_reserves_what_it_should() {
    for size in SIZES {
        let g = Geometry::of(size).expect("a size cards come in");
        assert_eq!(g.blocks, size / BLOCK);
        assert_eq!(g.entries, g.blocks);
        assert!(g.first_data_block > g.fat2_block);
        assert_eq!(Geometry::from_size_word(g.size_word()), Some(g), "the word round-trips");
    }
    assert_eq!(Geometry::of(3000), None);
    assert_eq!(Geometry::of(32768), None);

    let cart = Geometry::of(2048).expect("a real size");
    assert_eq!((cart.blocks, cart.entries, cart.first_data_block), (32, 32, 5));
    assert_eq!(cart.size_word(), 0x1000);
    let cd = Geometry::of(8192).expect("a real size");
    assert_eq!((cd.blocks, cd.entries, cd.first_data_block), (128, 128, 13));
    assert_eq!((cd.directory_block, cd.fat1_block, cd.fat2_block), (1, 9, 11));
    assert_eq!(cd.size_word(), 0x4000);
}

#[test]
fn a_data_capacity_finds_its_card_again() {
    for size in SIZES {
        let g = Geometry::of(size).unwrap();
        assert_eq!(Geometry::for_data_capacity(g.data_capacity()), Some(g));
        assert_eq!(g.fat_len(), g.blocks);
    }
    assert_eq!(Geometry::for_data_capacity(1), None);
}

#[test]
fn something_that_is_not_a_card_is_refused() {
    assert!(matches!(MemoryCard::parse(&[1, 2, 3]), Err(Error::WrongLength(3))));
    assert!(!detect(&[1, 2, 3]));
    assert!(!detect(&vec![0u8; 4096]));
}

#[test]
fn reads_a_bare_card() {
    let mut data = b"METAL SLUG X".to_vec();
    data.resize(100, 0);
    let card = card_with(2048, &[(0x0250, 0, &data)]);
    assert!(detect(&card));
    let parsed = MemoryCard::parse(&card).expect("reads");
    assert_eq!(parsed.container(), Container::Bare);
    assert_eq!(parsed.backup_ram(), None);
    assert_eq!(parsed.capacity(), 2048);
    assert_eq!(parsed.saves().len(), 1);
    let save = &parsed.saves()[0];
    assert_eq!((save.ngh, save.sub, save.slot), (0x0250, 0, 0));
    assert_eq!(save.data.len(), 2 * BLOCK);
    assert_eq!(&save.data[..100], &data[..]);
    assert_eq!(save.title(), "METAL SLUG X");
    assert_eq!(parsed.username(), b"PLAYER ONE      ");
    assert_eq!(parsed.region(), Region::Usa);
    assert_eq!(parsed.system_area().len(), 5 * BLOCK);
    assert_eq!(parsed.image(), &card[..]);
}

#[test]
fn a_title_needs_legible_bytes() {
    let mut binary = vec![0x01u8, 0x02, 0x03];
    binary.resize(64, 0);
    let card = card_with(2048, &[(0x0047, 1, &binary)]);
    let parsed = MemoryCard::parse(&card).expect("reads");
    assert_eq!(parsed.saves()[0].title(), "");
}

#[test]
fn reads_a_card_out_of_a_mister_save() {
    let card = card_with(8192, &[(0x0047, 0, &[7u8; 70])]);
    let file = mister(&card);
    assert!(detect(&file));
    let (container, stripped, ram) = strip_container(&file).expect("a card");
    assert_eq!(container, Container::MiSter);
    assert_eq!(&stripped[..card.len()], &card[..]);
    assert_eq!(ram.map(|r| r.len()), Some(MISTER_BACKUP_RAM));
    let parsed = MemoryCard::parse(&file).expect("reads");
    assert_eq!(parsed.container(), Container::MiSter);
    assert_eq!(parsed.image(), &card[..]);
    assert_eq!(parsed.backup_ram().map(|r| r.len()), Some(MISTER_BACKUP_RAM));
    assert_eq!(parsed.saves()[0].data.len(), 2 * BLOCK);
}

#[test]
fn a_card_whose_table_disagrees_with_its_size_is_refused() {
    let mut card = card_with(2048, &[]);
    let g = Geometry::of(2048).unwrap();
    card[g.fat1_block * BLOCK + 4] = 0;
    assert!(matches!(
        MemoryCard::parse(&card),
        Err(Error::UnexpectedGeometry { computed: 5, stated: 4 })
    ));
}

#[test]
fn a_card_stating_an_unknown_size_is_refused() {
    let mut card = card_with(2048, &[]);
    card[0x0A..0x0C].copy_from_slice(&0x1234u16.to_be_bytes());
    assert!(matches!(MemoryCard::parse(&card), Err(Error::UnknownSize(0x1234))));
}

#[test]
fn a_chain_into_a_free_block_is_refused() {
    let mut builder = CardBuilder::new(8192).expect("a real size");
    builder.add(Save { slot: 0, sub: 0, ngh: 1, dirent: Vec::new(), data: vec![7u8; 2 * BLOCK] });
    let mut card = builder.build().expect("writes");
    let g = Geometry::of(8192).expect("a real size");
    for fat_block in [g.fat1_block, g.fat2_block] {
        card[fat_block * BLOCK + 14] = FAT_FREE;
    }
    assert!(matches!(MemoryCard::parse(&card), Err(Error::Corrupt(_))));
}

#[test]
fn a_chain_broken_by_hand_in_a_written_card_is_refused() {
    let mut card = card_with(2048, &[(0x0047, 0, &[7u8; 70])]);
    let g = Geometry::of(2048).unwrap();
    card[g.fat1_block * BLOCK + g.first_data_block] = 0;
    assert!(matches!(MemoryCard::parse(&card), Err(Error::Corrupt(_))));
}

#[test]
fn regions_keep_their_byte() {
    for byte in 0..=255u8 {
        assert_eq!(Region::from_byte(byte).as_byte(), byte);
    }
    assert_eq!(Region::from_byte(2), Region::Europe);
    assert_eq!(Region::from_byte(9), Region::Unknown(9));
}

#[test]
fn the_table_checksum_is_an_eight_bit_sum() {
    assert_eq!(fat_checksum(&[0x80, 0x80, 0x03]), 3);
    assert_eq!(fat_checksum(&[]), 0);
}

#[test]
fn a_card_built_from_nothing_reads_back() {
    let mut builder = CardBuilder::new(4096).expect("a real size");
    builder.add(Save {
        slot: 0,
        sub: 0,
        ngh: 0x0250,
        dirent: Vec::new(),
        data: b"METAL SLUG X        ".iter().copied().chain(std::iter::repeat_n(0, 44)).collect(),
    });
    let image = builder.build().expect("writes");

    let card = MemoryCard::parse(&image).expect("reads what it wrote");
    assert_eq!(card.capacity(), 4096);
    let first_data = Geometry::of(4096).expect("a real size").first_data_block;
    assert_eq!(card.region(), Region::Japan, "a formatted card states region 0");
    assert_eq!(card.saves().len(), 1);
    assert_eq!(card.saves()[0].ngh, 0x0250);
    assert_eq!(card.saves()[0].title(), "METAL SLUG X");
    assert_eq!(usize::from(card.saves()[0].dirent[3]), first_data, "the first data block");
}

#[test]
fn a_chain_is_followed_rather_than_assumed_to_be_a_run() {
    let mut builder = CardBuilder::new(8192).expect("a real size");
    builder.add(Save {
        slot: 0,
        sub: 0,
        ngh: 0x0201,
        dirent: Vec::new(),
        data: (0..3 * BLOCK).map(|b| u8::try_from(b & 0xFF).expect("a byte")).collect(),
    });
    let mut card = builder.build().expect("writes");
    let g = Geometry::of(8192).expect("a real size");
    assert_eq!(g.first_data_block, 13, "the geometry two real CD cards confirm");

    let (from, to) = (14 * BLOCK, 20 * BLOCK);
    let middle: Vec<u8> = card[from..from + BLOCK].to_vec();
    card[to..to + BLOCK].copy_from_slice(&middle);
    card[from..from + BLOCK].fill(0);
    for fat_block in [g.fat1_block, g.fat2_block] {
        let fat = fat_block * BLOCK;
        card[fat + 13] = 20;
        card[fat + 20] = 14;
        card[fat + 14] = FAT_CHAIN_END;
    }

    let parsed = MemoryCard::parse(&card).expect("reads");
    assert_eq!(parsed.saves().len(), 1);
    let data = &parsed.saves()[0].data;
    assert_eq!(data.len(), 3 * BLOCK, "all three blocks, wherever they sit");
    assert_eq!(data[..BLOCK], (0..BLOCK).map(|b| u8::try_from(b).expect("a byte")).collect::<Vec<_>>());
    assert_eq!(data[BLOCK..2 * BLOCK], middle[..]);
}

#[test]
fn a_save_spanning_two_blocks_comes_back_whole() {
    let mut builder = CardBuilder::new(4096).expect("a real size");
    builder
        .add(Save { slot: 0, sub: 0, ngh: 0x0047, dirent: Vec::new(), data: vec![1u8; 2 * BLOCK] })
        .add(Save { slot: 0, sub: 1, ngh: 0x0250, dirent: Vec::new(), data: vec![2u8; BLOCK] });
    let card = MemoryCard::parse(&builder.build().expect("writes")).expect("reads");

    assert_eq!(card.saves().len(), 2);
    assert_eq!(card.saves()[0].data, vec![1u8; 2 * BLOCK]);
    assert_eq!(card.saves()[1].data, vec![2u8; BLOCK]);
    let first_data = Geometry::of(4096).expect("a real size").first_data_block;
    assert_eq!(
        usize::from(card.saves()[1].dirent[3]),
        first_data + 2,
        "the second save starts after the first's two blocks"
    );
}

#[test]
fn refuses_what_will_not_fit() {
    let mut builder = CardBuilder::new(2048).expect("a real size");
    builder.add(Save { slot: 0, sub: 0, ngh: 1, dirent: Vec::new(), data: vec![0u8; 4096] });
    assert!(matches!(builder.build(), Err(Error::Full { .. })));

    let mut empty = CardBuilder::new(4096).expect("a real size");
    empty.add(Save { slot: 0, sub: 0, ngh: 9, dirent: Vec::new(), data: Vec::new() });
    assert!(matches!(empty.build(), Err(Error::EmptySave(9))));

    assert!(matches!(CardBuilder::new(3000), Err(Error::UnknownSize(3000))));
}

#[test]
fn a_card_rebuilt_from_itself_is_the_same_card() {
    let card = card_with(2048, &[(0x0047, 0, &[7u8; 70]), (0x0250, 1, &[9u8; 64])]);
    let parsed = MemoryCard::parse(&card).expect("reads");
    let rebuilt = CardBuilder::from_card(&parsed).build().expect("writes");
    let again = MemoryCard::parse(&rebuilt).expect("reads back");
    assert_eq!(again.saves(), parsed.saves());
    // The header passes through; only the table checksum the builder regenerates may differ.
    assert_eq!(again.system_area()[..0x0D], parsed.system_area()[..0x0D]);
    assert_eq!(again.system_area()[0x0F..], parsed.system_area()[0x0F..]);
}

#[test]
fn a_mister_save_is_written_back_in_its_container() {
    let card = card_with(2048, &[(0x0047, 0, &[7u8; 70])]);
    let parsed = MemoryCard::parse(&card).expect("reads");
    let mut builder = CardBuilder::from_card(&parsed);
    builder.container(Container::MiSter).backup_ram(vec![0x5Au8; MISTER_BACKUP_RAM]);
    let wrapped = builder.build().expect("writes");
    assert_eq!(wrapped.len(), MISTER_BACKUP_RAM + 0x2000);
    assert!(wrapped[..MISTER_BACKUP_RAM].iter().all(|&b| b == 0x5A));
    let reread = MemoryCard::parse(&wrapped).expect("reads the container");
    assert_eq!(reread.container(), Container::MiSter);
    assert_eq!(reread.saves(), parsed.saves());
}

#[test]
fn an_erased_card_echoes_its_own_offsets() {
    let image = CardBuilder::new(2048).expect("a real size").build().expect("writes");
    let g = Geometry::of(2048).unwrap();
    let at = g.first_data_block * BLOCK;
    // Every word past the structure reads back twice its own offset, big-endian.
    assert_eq!(&image[at..at + 2], &u16::try_from(at * 2).unwrap().to_be_bytes());
    assert_eq!(&image[0x180..0x186], &[0x03, 0x00, 0x03, 0x04, 0x03, 0x08]);
    assert_eq!(&image[0x10..0x20], b"                ");
}

/// A MiSTer save holding a 2 KiB card formatted the way the core formats one (a European
/// console), with the given saves on it.
fn mister_card(saves: &[(u16, u8, Vec<u8>)]) -> Vec<u8> {
    let formatted = card_with(2048, &[]);
    let mut system = MemoryCard::parse(&formatted).expect("reads").system_area().to_vec();
    system[0x30] = Region::Europe.as_byte();
    let mut builder = CardBuilder::new(2048).expect("a real size");
    builder.system_area(system).container(Container::MiSter).backup_ram(vec![0x5Au8; MISTER_BACKUP_RAM]);
    for (ngh, sub, data) in saves {
        builder.add(Save { slot: 0, sub: *sub, ngh: *ngh, dirent: Vec::new(), data: data.clone() });
    }
    builder.build().expect("writes")
}

/// Metal Slug X (NGH-250): its stage progress and its options, two one-block saves.
fn metal_slug_x() -> Vec<u8> {
    let mut stages = b"METAL SLUG X".to_vec();
    stages.resize(BLOCK, 0);
    let mut options = b"METAL SLUG X OPTION".to_vec();
    options.resize(BLOCK, 0);
    mister_card(&[(0x0250, 0, stages), (0x0250, 1, options)])
}

/// Fatal Fury 2 (NGH-047): one save, which opens with a binary header rather than a title.
fn fatal_fury_2() -> Vec<u8> {
    let mut data = vec![0x01u8, 0x02, 0x03, 0x04];
    data.resize(BLOCK, 0);
    mister_card(&[(0x0047, 0, data)])
}

#[test]
fn the_other_card_differs_only_in_the_game_it_holds() {
    let card = MemoryCard::parse(&fatal_fury_2()).expect("reads");
    let save = &card.saves()[0];
    assert_eq!(save.ngh, 0x0047);
    assert_eq!(save.dirent, vec![0x00, 0x00, 0x47, 0x05]);
    assert_eq!(save.title(), "");
    let other = MemoryCard::parse(&metal_slug_x()).expect("reads");
    assert_eq!(card.username(), other.username());
    assert_eq!(card.region(), other.region());
    assert_eq!(card.geometry(), other.geometry());
}

#[test]
fn the_table_checksum_is_the_sum_the_header_carries() {
    for (name, file) in [("Metal Slug X", metal_slug_x()), ("Fatal Fury 2", fatal_fury_2())] {
        let card = MemoryCard::parse(&file).expect("reads");
        let g = card.geometry();
        let fat1 = &card.image()[g.fat1_block * BLOCK..][..g.fat_len()];
        let fat2 = &card.image()[g.fat2_block * BLOCK..][..g.fat_len()];
        assert_eq!(fat1, fat2, "{name}: the second table mirrors the first");
        assert_eq!(fat_checksum(fat1), card.image()[CHECKSUM_OFFSET], "{name}: FAT 1 checksum");
        assert_eq!(fat_checksum(fat2), card.image()[CHECKSUM_OFFSET + 1], "{name}: FAT 2 checksum");
    }
}

#[test]
fn a_bare_card_round_trips_too() {
    let card = MemoryCard::parse(&metal_slug_x()).expect("reads");
    let bare = card.image().to_vec();
    let reparsed = MemoryCard::parse(&bare).expect("reads the bare card");
    assert_eq!(reparsed.container(), Container::Bare);
    assert_eq!(reparsed.saves(), card.saves());

    let mut builder = CardBuilder::from_card(&reparsed);
    assert_eq!(builder.container(Container::Bare).build().expect("writes"), bare);
}
