//! Cards read out of the archives they are shared in. The archives are built here, so what each
//! holds is stated in the test that reads it.

use std::io::Write;

use onesaves::archive::{is_archive, members, unpack};
use onesaves::error::Error;

/// An archive of the given members, uncompressed.
fn zip(members: &[(&str, Vec<u8>)]) -> Vec<u8> {
    let mut writer = zip::ZipWriter::new(std::io::Cursor::new(Vec::new()));
    let options =
        zip::write::SimpleFileOptions::default().compression_method(zip::CompressionMethod::Stored);
    for (name, bytes) in members {
        if name.ends_with('/') {
            writer.add_directory(*name, options).expect("a directory");
        } else {
            writer.start_file(*name, options).expect("a member");
            writer.write_all(bytes).expect("writes");
        }
    }
    writer.finish().expect("finishes").into_inner()
}

/// A PlayStation card image: 128 KiB opening with its `MC` header. Its extension is what names it.
fn a_card() -> Vec<u8> {
    let mut card = vec![0u8; 128 * 1024];
    card[0] = b'M';
    card[1] = b'C';
    card
}

/// A single PlayStation save as a PS3 exports it.
fn a_save() -> Vec<u8> {
    let mut save = vec![0u8; 0x2000];
    save[1..4].copy_from_slice(b"VSP");
    save
}

#[test]
fn only_an_archive_is_treated_as_one() {
    assert!(is_archive(&zip(&[("card.mcr", a_card())])));
    assert!(!is_archive(&a_card()));
    assert!(!is_archive(b""));
}

#[test]
fn an_archived_card_is_read_as_that_card() {
    let unpacked = unpack(&zip(&[("card.mcr", a_card())])).expect("unpacks");
    assert!(!unpacked.assembled, "it was found whole, not built");
    assert_eq!(unpacked.bytes, a_card());
    assert_eq!(unpacked.source, "card.mcr");
}

#[test]
fn a_card_beside_loose_saves_is_preferred_to_assembling_one() {
    let unpacked = unpack(&zip(&[("save.PSV", a_save()), ("card.mcr", a_card())])).expect("unpacks");
    assert!(!unpacked.assembled);
    assert_eq!(unpacked.source, "card.mcr");
}

#[test]
fn an_archive_of_two_cards_is_refused_by_name() {
    let archive = zip(&[("one.mcr", a_card()), ("two.mcr", a_card())]);
    let error = unpack(&archive).expect_err("refuses").to_string();
    assert!(error.contains("one.mcr") && error.contains("two.mcr"), "{error}");
}

#[test]
fn an_archive_with_nothing_readable_says_what_was_in_it() {
    let archive = zip(&[("readme.txt", b"nothing here".to_vec())]);
    let error = unpack(&archive).expect_err("refuses").to_string();
    assert!(error.contains("readme.txt"), "{error}");

    assert!(unpack(&zip(&[])).expect_err("refuses").to_string().contains("nothing"));
}

#[test]
fn archiver_leavings_are_ignored() {
    let archive = zip(&[
        ("saves/", Vec::new()),
        ("__MACOSX/._card.mcr", b"junk".to_vec()),
        (".DS_Store", b"junk".to_vec()),
        ("saves/card.mcr", a_card()),
    ]);
    let unpacked = unpack(&archive).expect("unpacks");
    assert_eq!(unpacked.source, "saves/card.mcr");
}

#[test]
fn the_extension_detected_against_is_the_card_members_own() {
    let unpacked = unpack(&zip(&[("dumps/slot1.card.MCD", a_card())])).expect("unpacks");
    assert_eq!(unpacked.extension, "MCD");
    assert_eq!(unpacked.source, "dumps/slot1.card.MCD");
}

#[test]
fn two_cards_are_counted_and_named_in_archive_order() {
    let archive = zip(&[("a.mcr", a_card()), ("notes.txt", b"x".to_vec()), ("b.mpk", vec![0u8; 100])]);
    let error = unpack(&archive).expect_err("refuses");
    assert_eq!(error.to_string(), "this archive holds 2 cards: a.mcr, b.mpk");
    assert!(matches!(error, Error::Archive(_)));
}

#[test]
fn an_empty_archive_holds_nothing() {
    let error = unpack(&zip(&[])).expect_err("refuses");
    assert_eq!(error.to_string(), "this archive holds nothing");
}

#[test]
fn the_listing_stops_after_eight_names() {
    let names: Vec<String> = (0..10).map(|i| format!("note{i}.txt")).collect();
    let entries: Vec<(&str, Vec<u8>)> = names.iter().map(|n| (n.as_str(), b"x".to_vec())).collect();
    let error = unpack(&zip(&entries)).expect_err("refuses").to_string();
    assert_eq!(
        error,
        "this archive holds no card: note0.txt, note1.txt, note2.txt, note3.txt, note4.txt, \
         note5.txt, note6.txt, note7.txt, ..."
    );
}

#[test]
fn a_listing_of_a_few_names_has_no_ellipsis() {
    let error = unpack(&zip(&[("a.txt", b"1".to_vec()), ("b.txt", b"2".to_vec())]))
        .expect_err("refuses")
        .to_string();
    assert_eq!(error, "this archive holds no card: a.txt, b.txt");
}

#[test]
fn bytes_that_are_not_a_zip_cannot_be_opened() {
    let error = unpack(b"PK\x03\x04 but nothing else").expect_err("refuses");
    match error {
        Error::Archive(why) => assert!(why.starts_with("could not be opened: "), "{why}"),
        other => panic!("{other:?}"),
    }
}

#[test]
fn members_skip_directories_and_junk_and_keep_order() {
    let archive = zip(&[
        ("dir/", Vec::new()),
        ("dir/../escape.mcr", b"e".to_vec()),
        ("dir/.hidden", b"h".to_vec()),
        ("dir/one.srm", b"1".to_vec()),
        ("two.srm", b"22".to_vec()),
    ]);
    let found = members(&archive).expect("reads");
    let names: Vec<&str> = found.iter().map(|m| m.name.as_str()).collect();
    assert_eq!(names, vec!["dir/one.srm", "two.srm"]);
    assert_eq!(found[1].bytes, b"22".to_vec());
    assert_eq!(found[0].extension(), "srm");
}

#[test]
fn a_name_with_two_dots_that_is_not_a_component_is_kept() {
    let archive = zip(&[("a..b.srm", b"1".to_vec())]);
    let found = members(&archive).expect("reads");
    assert_eq!(found.len(), 1);
    assert_eq!(found[0].extension(), "srm");
}

#[test]
fn a_wrong_length_error_writes_its_count_in_decimal() {
    let error = Error::WrongLength { format: "VMU image", expected: "131072 bytes", found: 1234 };
    assert_eq!(error.to_string(), "a VMU image is 131072 bytes, but this file is 1234 bytes");
    let zero = Error::WrongLength { format: "x", expected: "y", found: 0 };
    assert_eq!(zero.to_string(), "a x is y, but this file is 0 bytes");
}
