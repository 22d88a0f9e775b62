use onesaves::icon::{be16, rgb5a3, scale, Rgba};

#[test]
fn a_channel_is_widened_over_its_full_range() {
    assert_eq!(scale(0, 31), 0);
    assert_eq!(scale(31, 31), 255);
    assert_eq!(scale(15, 31), 123);
    assert_eq!(scale(7, 7), 255);
    assert_eq!(scale(3, 7), 109);
}

#[test]
fn an_opaque_rgb5a3_pixel_is_rgb555() {
    assert_eq!(rgb5a3(0xFFFF), [255, 255, 255, 255]);
    assert_eq!(rgb5a3(0x8000 | (31 << 10)), [255, 0, 0, 255]);
    assert_eq!(rgb5a3(0x8000 | 31), [0, 0, 255, 255]);
}

#[test]
fn a_translucent_rgb5a3_pixel_carries_three_bits_of_alpha() {
    assert_eq!(rgb5a3(0x7FFF), [255, 255, 255, 255]);
    assert_eq!(rgb5a3(0x0F00), [255, 0, 0, 0]);
    assert_eq!(rgb5a3(0x3000), [0, 0, 0, 109]);
}

#[test]
fn a_word_past_the_end_reads_as_zero() {
    let bytes = [0x12, 0x34, 0x56];
    assert_eq!(be16(&bytes, 0), 0x1234);
    assert_eq!(be16(&bytes, 1), 0);
}

#[test]
fn tiles_are_laid_back_out_in_scanlines() {
    // An 8x4 picture of two 4x4 tiles: every pixel of the first tile is red, every one of the
    // second is blue. Read as scanlines, each row is four red pixels then four blue.
    let red = [255, 0, 0, 255];
    let blue = [0, 0, 255, 255];
    let mut stream = vec![red; 16];
    stream.extend(vec![blue; 16]);
    let picture = Rgba::from_tiles(8, 4, (4, 4), &stream);
    assert_eq!((picture.width, picture.height), (8, 4));
    for row in 0..4 {
        for column in 0..8 {
            let at = (row * 8 + column) * 4;
            let want = if column < 4 { red } else { blue };
            assert_eq!(&picture.pixels[at..at + 4], &want[..], "{column},{row}");
        }
    }
}

#[test]
fn the_order_within_a_tile_is_row_major() {
    let stream: Vec<[u8; 4]> = (0u8..8).map(|i| [i, i, i, 255]).collect();
    // One 4x2 tile: the stream is already the scanlines.
    let picture = Rgba::from_tiles(4, 2, (4, 2), &stream);
    let firsts: Vec<u8> = picture.pixels.chunks(4).map(|p| p[0]).collect();
    assert_eq!(firsts, vec![0, 1, 2, 3, 4, 5, 6, 7]);
    // The same stream as two 2x2 tiles side by side.
    let picture = Rgba::from_tiles(4, 2, (2, 2), &stream);
    let firsts: Vec<u8> = picture.pixels.chunks(4).map(|p| p[0]).collect();
    assert_eq!(firsts, vec![0, 1, 4, 5, 2, 3, 6, 7]);
}

#[test]
fn a_picture_encodes_as_a_png_that_decodes_back_to_it() {
    let stream: Vec<[u8; 4]> = (0u8..16).map(|i| [i * 16, 255 - i, i, 255]).collect();
    let picture = Rgba::from_tiles(4, 4, (4, 4), &stream);
    let png_bytes = picture.to_png().expect("encodes");
    assert_eq!(&png_bytes[..8], b"\x89PNG\r\n\x1a\n");

    let decoder = png::Decoder::new(std::io::Cursor::new(png_bytes));
    let mut reader = decoder.read_info().expect("a header");
    let mut out = vec![0u8; reader.output_buffer_size().expect("a size")];
    let info = reader.next_frame(&mut out).expect("a frame");
    assert_eq!((info.width, info.height), (4, 4));
    assert_eq!(&out[..info.buffer_size()], &picture.pixels[..]);
}
