use onesaves::label::{ascii_field, label_of_decoded, shift_jis_field};

#[test]
fn a_fixed_width_field_loses_its_padding_and_nothing_else() {
    assert_eq!(ascii_field(b"F-ZERO GX\0\0\0"), Some("F-ZERO GX".into()));
    assert_eq!(ascii_field(b"Super Smash Bros. Melee         "), Some("Super Smash Bros. Melee".into()));
    assert_eq!(ascii_field(b"Game Data 2026/09/17"), Some("Game Data 2026/09/17".into()));
    assert_eq!(ascii_field(b"          "), None);
    assert_eq!(ascii_field(b"\0\0\0\0"), None);
    assert_eq!(ascii_field(b"M\xe9tal"), None);
}

#[test]
fn a_title_in_shift_jis_is_read_rather_than_approximated() {
    let tekken = b"\x82\x73\x82\x64\x82\x6a\x82\x6a\x82\x64\x82\x6d\x81\x40\x82\x53";
    assert_eq!(shift_jis_field(tekken), Some("ＴＥＫＫＥＮ　４".into()));
    assert_ne!(shift_jis_field(tekken), Some("TEKKEN 4".into()));
    assert_eq!(shift_jis_field(b"\x82\xa0"), Some("あ".into()));
    assert_eq!(shift_jis_field(b"DQ8 n01   "), Some("DQ8 n01".into()));
    assert_eq!(shift_jis_field(b"AB\x82"), None);
}

#[test]
fn a_decoded_title_is_trimmed_or_refused() {
    assert_eq!(label_of_decoded("  x  ", false), Some("x".into()));
    assert_eq!(label_of_decoded("x", true), None);
    assert_eq!(label_of_decoded("\u{3000}", false), None, "ideographic space is white space");
}
