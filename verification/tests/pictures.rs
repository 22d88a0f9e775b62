use onesaves::card::gc::pictures as gc_pictures;
use onesaves::card::ps1::{pictures as ps1_pictures, title_of as ps1_title};
use onesaves::card::ps2::title_of as ps2_title;
use onesaves::icon::{value, Frame};
use onesaves::label::{fits, value as label};

/// Decodes a PNG to its size and straight RGBA pixels.
fn decode(png_bytes: &[u8]) -> (u32, u32, Vec<u8>) {
    let decoder = png::Decoder::new(std::io::Cursor::new(png_bytes.to_vec()));
    let mut reader = decoder.read_info().expect("a header");
    let mut out = vec![0u8; reader.output_buffer_size().expect("a size")];
    let info = reader.next_frame(&mut out).expect("a frame");
    out.truncate(info.buffer_size());
    (info.width, info.height, out)
}

/// A GameCube entry whose pictures start at `offset`, with a banner format and per-frame formats
/// and speeds, two bits each.
fn gc_entry(offset: u32, banner: u8, formats: u16, speeds: u16) -> Vec<u8> {
    let mut dirent = vec![0u8; 64];
    dirent[0x07] = banner;
    dirent[0x2c..0x30].copy_from_slice(&offset.to_be_bytes());
    dirent[0x30..0x32].copy_from_slice(&formats.to_be_bytes());
    dirent[0x32..0x34].copy_from_slice(&speeds.to_be_bytes());
    dirent
}

/// A banner of RGB5A3 white, an RGB5A3 frame of opaque red, and a CI8 frame of palette entry 5,
/// which is opaque blue.
fn gc_data() -> Vec<u8> {
    let mut data = Vec::new();
    for _ in 0..96 * 32 {
        data.extend_from_slice(&0xFFFFu16.to_be_bytes());
    }
    for _ in 0..32 * 32 {
        data.extend_from_slice(&(0x8000u16 | (31 << 10)).to_be_bytes());
    }
    data.extend(vec![5u8; 32 * 32]);
    let mut palette = vec![0u8; 512];
    palette[10..12].copy_from_slice(&(0x8000u16 | 31).to_be_bytes());
    data.extend(palette);
    data
}

#[test]
fn a_gamecube_save_carries_its_banner_and_frames_as_pngs() {
    let icon = gc_pictures(&gc_entry(0, 2, 2 | (1 << 2), 3 | (1 << 2)), &gc_data()).expect("pictures");
    let banner = decode(icon.banner.as_ref().expect("a banner"));
    assert_eq!((banner.0, banner.1), (96, 32));
    assert!(banner.2.chunks(4).all(|p| p == [255, 255, 255, 255]));

    assert_eq!(icon.frames.len(), 2);
    // Twelfths of a second: three is a quarter, one is 83 ms.
    assert_eq!(icon.frames[0].hold_ms, Some(250));
    assert_eq!(icon.frames[1].hold_ms, Some(83));
    let first = decode(&icon.frames[0].png);
    assert_eq!((first.0, first.1), (32, 32));
    assert!(first.2.chunks(4).all(|p| p == [255, 0, 0, 255]));
    let second = decode(&icon.frames[1].png);
    assert!(second.2.chunks(4).all(|p| p == [0, 0, 255, 255]));
}

#[test]
fn a_frame_with_no_speed_holds_for_nothing_said() {
    let mut data = vec![0u8; 0];
    for _ in 0..32 * 32 {
        data.extend_from_slice(&0xFFFFu16.to_be_bytes());
    }
    let icon = gc_pictures(&gc_entry(0, 0, 2, 0), &data).expect("pictures");
    assert_eq!(icon.banner, None);
    assert_eq!(icon.frames.len(), 1);
    assert_eq!(icon.frames[0].hold_ms, None);
}

#[test]
fn the_pictures_start_where_the_entry_says() {
    let mut data = vec![0xAAu8; 100];
    data.extend(gc_data());
    let icon = gc_pictures(&gc_entry(100, 2, 2, 3), &data).expect("pictures");
    assert_eq!(icon.frames.len(), 1);
    assert!(decode(&icon.frames[0].png).2.chunks(4).all(|p| p == [255, 0, 0, 255]));
}

#[test]
fn a_picture_past_the_end_of_the_save_leaves_no_icon() {
    let mut data = gc_data();
    data.truncate(96 * 32 * 2 + 32 * 32 * 2 + 32 * 32 + 511);
    assert!(gc_pictures(&gc_entry(0, 2, 2 | (1 << 2), 0), &data).is_none());
    assert!(gc_pictures(&gc_entry(0, 2, 2, 0), &gc_data()[..6000]).is_none());
}

#[test]
fn a_banner_without_frames_is_no_icon_and_a_short_entry_is_none() {
    assert!(gc_pictures(&gc_entry(0, 2, 0, 0), &gc_data()).is_none());
    assert!(gc_pictures(&gc_entry(0, 2, 2, 0)[..0x33], &gc_data()).is_none());
}

/// A PS1 save's first block: `SC`, a frame count, a title, a colour table in which entry one is
/// red, and frames whose every pair of pixels is entry one then entry zero.
fn ps1_block(frames: u8, title: &[u8]) -> Vec<u8> {
    let mut data = vec![0u8; 0x80 + 128 * 3];
    data[0] = b'S';
    data[1] = b'C';
    data[2] = 0x10 | frames;
    data[4..4 + title.len()].copy_from_slice(title);
    data[0x62..0x64].copy_from_slice(&31u16.to_le_bytes());
    for byte in &mut data[0x80..] {
        *byte = 0x10;
    }
    data
}

#[test]
fn a_ps1_icon_is_read_high_nibble_first() {
    let icon = ps1_pictures(&ps1_block(2, b"")).expect("pictures");
    assert_eq!(icon.banner, None);
    assert_eq!(icon.frames.len(), 2);
    assert_eq!(icon.frames[0].hold_ms, None);
    let (width, height, pixels) = decode(&icon.frames[0].png);
    assert_eq!((width, height), (16, 16));
    assert_eq!(&pixels[0..4], &[255, 0, 0, 255]);
    assert_eq!(&pixels[4..8], &[0, 0, 0, 0]);
}

#[test]
fn a_ps1_frame_count_is_held_to_three() {
    let icon = ps1_pictures(&ps1_block(0x0F, b"")).expect("pictures");
    assert_eq!(icon.frames.len(), 3);
    assert!(ps1_pictures(&ps1_block(0, b"")).is_none());
    let mut short = ps1_block(3, b"");
    short.truncate(0x80 + 128 * 2);
    assert!(ps1_pictures(&short).is_none());
    let mut wrong = ps1_block(1, b"");
    wrong[0] = b'X';
    assert!(ps1_pictures(&wrong).is_none());
}

#[test]
fn a_ps1_title_is_read_out_of_shift_jis() {
    let found = ps1_title(&ps1_block(1, b"GRAN TURISMO   ")).expect("a title");
    assert_eq!(found.title, "GRAN TURISMO");
    assert_eq!(found.detail, None);
    // Full-width Ｔ is 0x82 0x73 in Shift-JIS, and stays full width.
    let found = ps1_title(&ps1_block(1, &[0x82, 0x73, 0x82, 0x64])).expect("a title");
    assert_eq!(found.title, "ＴＥ");
    assert!(ps1_title(&ps1_block(1, b"")).is_none(), "a blank title is none");
    assert!(ps1_title(&[b'S', b'C']).is_none());
}

#[test]
fn a_ps2_title_comes_out_of_icon_sys() {
    let mut icon_sys = vec![0u8; 0x104];
    icon_sys[0..4].copy_from_slice(b"PS2D");
    icon_sys[0xc0..0xc0 + 6].copy_from_slice(b"TEKKEN");
    assert_eq!(ps2_title(&icon_sys).map(|l| l.title).as_deref(), Some("TEKKEN"));
    icon_sys[0] = b'X';
    assert!(ps2_title(&icon_sys).is_none());
    assert!(ps2_title(b"PS2D").is_none());
}

#[test]
fn a_label_line_is_one_to_256_bytes() {
    assert!(!fits(""));
    assert!(fits("a"));
    assert!(fits(&"a".repeat(256)));
    assert!(!fits(&"a".repeat(257)));
    // Counted in bytes: 86 three-byte characters are 258.
    assert!(!fits(&"Ｔ".repeat(86)));
    assert!(fits(&"Ｔ".repeat(85)));
}

#[test]
fn a_label_needs_a_title_and_drops_a_detail_that_does_not_fit() {
    assert!(label(None, Some("detail".into())).is_none());
    assert!(label(Some(String::new()), None).is_none());
    let found = label(Some("title".into()), Some("x".repeat(300))).expect("a label");
    assert_eq!((found.title.as_str(), found.detail), ("title", None));
    let found = label(Some("title".into()), Some("detail".into())).expect("a label");
    assert_eq!(found.detail.as_deref(), Some("detail"));
}

#[test]
fn an_icon_needs_a_frame() {
    assert!(value(Vec::new(), Some(vec![1, 2, 3])).is_none());
    let icon = value(vec![Frame { png: vec![1], hold_ms: Some(5) }], None).expect("an icon");
    assert_eq!(icon.frames.len(), 1);
}
