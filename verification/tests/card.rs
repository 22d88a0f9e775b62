use onesaves::card::gc::{modified_at, MODIFIED_AT};
use onesaves::card::ps1::bgr555;
use onesaves::card::ps2::serial_from_name;

#[test]
fn the_entry_time_is_the_wall_clock_the_console_showed() {
    for (raw, reading) in [(842_979_996u32, 1_789_664_796i64), (840_552_695, 1_787_237_495)] {
        let mut dirent = vec![0u8; 64];
        dirent[MODIFIED_AT..MODIFIED_AT + 4].copy_from_slice(&raw.to_be_bytes());
        assert_eq!(modified_at(&dirent), Some(reading), "{raw}");
    }
    assert_eq!(modified_at(&[0u8; 64]), None);
    assert_eq!(modified_at(&[0u8; 8]), None);
}

#[test]
fn an_entry_just_long_enough_for_the_field_is_read() {
    let mut dirent = vec![0u8; MODIFIED_AT + 4];
    dirent[MODIFIED_AT + 3] = 1;
    assert_eq!(modified_at(&dirent), Some(946_684_801));
    assert_eq!(modified_at(&dirent[..MODIFIED_AT + 3]), None);
}

#[test]
fn reads_a_serial_only_out_of_a_name_shaped_like_one() {
    assert_eq!(serial_from_name("BASLUS-20312").as_deref(), Some("SLUS-20312"));
    assert_eq!(serial_from_name("BESLES-50213").as_deref(), Some("SLES-50213"));
    assert_eq!(serial_from_name("SHORT"), None);
}

#[test]
fn a_name_whose_code_is_misshapen_carries_no_serial() {
    assert_eq!(serial_from_name("BAslus-20312"), None);
    assert_eq!(serial_from_name("BASLUS_20312"), None);
    assert_eq!(serial_from_name("BASLUS-2031X"), None);
    assert_eq!(serial_from_name("BASLUS-20312SAVE").as_deref(), Some("SLUS-20312"));
}

#[test]
fn a_palette_entry_of_zero_is_the_transparent_one() {
    assert_eq!(bgr555(0), [0, 0, 0, 0]);
    assert_eq!(bgr555(0x7FFF), [255, 255, 255, 255]);
    assert_eq!(bgr555(0x8000), [0, 0, 0, 255]);
}

#[test]
fn a_palette_entry_is_red_in_its_low_bits() {
    assert_eq!(bgr555(31), [255, 0, 0, 255]);
    assert_eq!(bgr555(31 << 5), [0, 255, 0, 255]);
    assert_eq!(bgr555(31 << 10), [0, 0, 255, 255]);
    assert_eq!(bgr555(16), [131, 0, 0, 255]);
}
