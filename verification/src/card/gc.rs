//! GameCube memory cards.
//!
//! Slot A is `memcard-1` and Slot B is `memcard-2`. A save is opened by game code plus maker code
//! plus filename, so the serial is the pair of codes rather than either alone.

use vstd::prelude::*;
use crate::bytes::{be16, be32, read_be16, read_be32};
use crate::icon::{
    after, ci8_colors, ci8_pixels, frame_views, icon_of, icon_view, lemma_after_after, opt_bytes,
    rgb5a3_colors, rgb5a3_pixels, tiled_png, value, Frame, FrameView, Icon, IconView, Rgba,
};

verus! {

/// Where a directory entry keeps the time the save was last written.
pub const MODIFIED_AT: usize = 0x28;

/// 2000-01-01 00:00:00 on the Unix scale, which is where a GameCube counts from.
pub const GC_EPOCH: i64 = 946_684_800;

/// Whether these bytes look like a GameCube memory card.
pub fn detect(bytes: &[u8]) -> (r: bool)
    ensures
        r == crate::gc::looks_like_card(bytes@),
{
    crate::gc::detect(bytes)
}

/// The reading an entry's modify time gives: nothing when the entry is too short to hold the field
/// or the field was never written, the console's seconds past 2000 otherwise.
pub open spec fn modified_reading(dirent: Seq<u8>) -> Option<i64> {
    if dirent.len() < MODIFIED_AT + 4 || be32(dirent, MODIFIED_AT as int) == 0 {
        None
    } else {
        Some((GC_EPOCH + be32(dirent, MODIFIED_AT as int)) as i64)
    }
}

/// The entry's modify time, as a wall-clock reading on the Unix scale.
///
/// A GameCube has no notion of a zone: the IPL sets a date and a time of day and nothing else, so
/// what comes back fixes when the console thought it was and not which instant that was. A zero is
/// an entry that never had the field written rather than midnight on new year 2000.
pub fn modified_at(dirent: &[u8]) -> (r: Option<i64>)
    ensures
        r == modified_reading(dirent@),
{
    if dirent.len() < MODIFIED_AT + 4 {
        return None;
    }
    let seconds = read_be32(dirent, MODIFIED_AT);
    if seconds == 0 {
        None
    } else {
        Some(GC_EPOCH + seconds as i64)
    }
}

/// Where an entry keeps its banner's format, in the low two bits.
pub const BANNER_FLAGS: usize = 0x07;
/// Where an entry says its pictures start, as an offset into the save's data.
pub const IMAGE_OFFSET: usize = 0x2c;
/// Where an entry keeps two bits of format per icon frame.
pub const ICON_FORMAT: usize = 0x30;
/// Where an entry keeps two bits of speed per icon frame: how many twelfths of a second it holds.
pub const ANIM_SPEED: usize = 0x32;

/// The bytes a palette of 256 RGB5A3 entries takes.
pub const PALETTE_BYTES: usize = 512;

/// The PNG of a picture stored as RGB5A3 at `at`, in 4x4 tiles.
pub open spec fn rgb5a3_picture(data: Seq<u8>, at: int, width: int, height: int) -> Option<Seq<u8>> {
    tiled_png(width, height, 4, 4, rgb5a3_colors(data.subrange(at, at + width * height * 2), width * height))
}

/// The PNG of a picture stored as CI8 at `at`, in 8x4 tiles, against the palette that follows it.
pub open spec fn ci8_picture(data: Seq<u8>, at: int, width: int, height: int) -> Option<Seq<u8>> {
    let n = width * height;
    tiled_png(width, height, 8, 4, ci8_colors(data.subrange(at, at + n), data.subrange(at + n, at + n + 512), n))
}

/// The banner an entry's flags describe at `cursor`, and where the frames start after it; nothing
/// at all where the data runs out before the banner does.
pub open spec fn banner_read(flags: u8, data: Seq<u8>, cursor: int) -> Option<(Option<Seq<u8>>, int)> {
    if flags % 4 == 2 {
        if cursor + 6144 > data.len() {
            None
        } else {
            Some((rgb5a3_picture(data, cursor, 96, 32), cursor + 6144))
        }
    } else if flags % 4 == 1 {
        if cursor + 3584 > data.len() {
            None
        } else {
            Some((ci8_picture(data, cursor, 96, 32), cursor + 3584))
        }
    } else {
        Some((None, cursor))
    }
}

/// How long a frame holds for two bits of speed: that many twelfths of a second, or nothing.
pub open spec fn speed_hold(speed: int) -> Option<u64> {
    let hold = speed * 1000 / 12;
    if hold > 0 {
        Some(hold as u64)
    } else {
        None
    }
}

/// One frame read at `cursor` with two bits of format and two of speed: the frame and where the
/// next one starts, `Some(None)` for a format that ends the animation, and `None` where the data
/// runs out before the frame does or its picture cannot be encoded.
pub open spec fn frame_step(format: int, speed: int, data: Seq<u8>, cursor: int) -> Option<
    Option<(FrameView, int)>,
> {
    if format == 2 {
        if cursor + 2048 > data.len() {
            None
        } else {
            match rgb5a3_picture(data, cursor, 32, 32) {
                Some(png) => Some(Some(((png, speed_hold(speed)), cursor + 2048))),
                None => None,
            }
        }
    } else if format == 1 {
        if cursor + 1024 + 512 > data.len() {
            None
        } else {
            match ci8_picture(data, cursor, 32, 32) {
                Some(png) => Some(Some(((png, speed_hold(speed)), cursor + 1024))),
                None => None,
            }
        }
    } else {
        Some(None)
    }
}

/// The frames read from `cursor` with `formats` and `speeds` two bits a frame, lowest first, for
/// up to `n` frames. A CI8 frame's palette follows it and is not stepped over, so the next frame
/// starts where its indices end.
pub open spec fn frames_read(formats: int, speeds: int, n: nat, data: Seq<u8>, cursor: int) -> Option<
    Seq<FrameView>,
>
    decreases n,
{
    if n == 0 {
        Some(seq![])
    } else {
        match frame_step(formats % 4, speeds % 4, data, cursor) {
            None => None,
            Some(None) => Some(seq![]),
            Some(Some((frame, next))) => after(
                seq![frame],
                frames_read(formats / 4, speeds / 4, (n - 1) as nat, data, next),
            ),
        }
    }
}

/// The pictures a save carries, as its entry describes them.
pub open spec fn entry_pictures(dirent: Seq<u8>, data: Seq<u8>) -> Option<IconView> {
    if dirent.len() < ANIM_SPEED + 2 {
        None
    } else {
        match banner_read(dirent[BANNER_FLAGS as int], data, be32(dirent, IMAGE_OFFSET as int)) {
            Some((banner, cursor)) => match frames_read(
                be16(dirent, ICON_FORMAT as int),
                be16(dirent, ANIM_SPEED as int),
                8,
                data,
                cursor,
            ) {
                Some(frames) => icon_of(frames, banner),
                None => None,
            },
            None => None,
        }
    }
}

/// The PNG of an RGB5A3 picture at `at`.
fn rgb5a3_png(data: &[u8], at: usize, width: usize, height: usize) -> (r: Option<Vec<u8>>)
    requires
        (width == 96 || width == 32) && height == 32,
        at + width * height * 2 <= data@.len(),
    ensures
        opt_bytes(r) == rgb5a3_picture(data@, at as int, width as int, height as int),
{
    let total = data.len();
    let n: usize = if width == 96 {
        3072
    } else {
        1024
    };
    assert(n == width * height && width % 4 == 0 && height % 4 == 0 && n * 4 <= 0x10000);
    let colors = rgb5a3_pixels(&data[at..at + n * 2], n);
    Rgba::from_tiles(width, height, (4, 4), colors.as_slice()).to_png()
}

/// The PNG of a CI8 picture at `at`, against the palette that follows it.
fn ci8_png(data: &[u8], at: usize, width: usize, height: usize) -> (r: Option<Vec<u8>>)
    requires
        (width == 96 || width == 32) && height == 32,
        at + width * height + 512 <= data@.len(),
    ensures
        opt_bytes(r) == ci8_picture(data@, at as int, width as int, height as int),
{
    let total = data.len();
    let n: usize = if width == 96 {
        3072
    } else {
        1024
    };
    assert(n == width * height && width % 8 == 0 && height % 4 == 0 && n * 4 <= 0x10000);
    let colors = ci8_pixels(&data[at..at + n], &data[at + n..at + n + PALETTE_BYTES], n);
    Rgba::from_tiles(width, height, (8, 4), colors.as_slice()).to_png()
}

/// One frame read at `cursor`, as [`frame_step`] describes it.
fn read_frame(data: &[u8], cursor: u64, format: u16, speed: u16) -> (r: Option<Option<(Frame, u64)>>)
    requires
        format < 4,
        speed < 4,
        cursor <= 0x1_0000_0000 + 0x10000,
    ensures
        match r {
            None => frame_step(format as int, speed as int, data@, cursor as int) is None,
            Some(None) => frame_step(format as int, speed as int, data@, cursor as int) == Some(
                None::<(FrameView, int)>,
            ),
            Some(Some((frame, next))) => frame_step(format as int, speed as int, data@, cursor as int)
                == Some(Some(((frame.png@, frame.hold_ms), next as int))),
        },
{
    let hold: u64 = speed as u64 * 1000 / 12;
    let hold_ms = if hold > 0 {
        Some(hold)
    } else {
        None
    };
    let len = data.len() as u64;
    if format == 2 {
        if cursor + 2048 > len {
            return None;
        }
        match rgb5a3_png(data, cursor as usize, 32, 32) {
            Some(png) => Some(Some((Frame { png, hold_ms }, cursor + 2048))),
            None => None,
        }
    } else if format == 1 {
        if cursor + 1024 + 512 > len {
            return None;
        }
        match ci8_png(data, cursor as usize, 32, 32) {
            Some(png) => Some(Some((Frame { png, hold_ms }, cursor + 1024))),
            None => None,
        }
    } else {
        Some(None)
    }
}

/// Decodes the pictures a GameCube save carries, as its directory entry describes them.
///
/// The frames come out at 32x32 and the banner at 96x32, in the console's own order and colours.
/// A CI8 picture indexes a 256-entry RGB5A3 palette that follows it; an RGB5A3 picture carries
/// its colours inline. The banner comes first where there is one and the frames follow, each
/// holding for as many twelfths of a second as its two bits of speed say. A frame set to neither
/// format ends the animation.
pub fn pictures(dirent: &[u8], data: &[u8]) -> (r: Option<Icon>)
    ensures
        icon_view(r) == entry_pictures(dirent@, data@),
{
    if dirent.len() < ANIM_SPEED + 2 {
        return None;
    }
    let at = read_be32(dirent, IMAGE_OFFSET);
    let formats = read_be16(dirent, ICON_FORMAT);
    let speeds = read_be16(dirent, ANIM_SPEED);
    let len = data.len() as u64;
    let mut cursor: u64 = at as u64;
    let flags = dirent[BANNER_FLAGS];
    let banner = if flags % 4 == 2 {
        if cursor + 6144 > len {
            return None;
        }
        let png = rgb5a3_png(data, cursor as usize, 96, 32);
        cursor = cursor + 6144;
        png
    } else if flags % 4 == 1 {
        if cursor + 3584 > len {
            return None;
        }
        let png = ci8_png(data, cursor as usize, 96, 32);
        cursor = cursor + 3584;
        png
    } else {
        None
    };
    let ghost start = cursor as int;
    assert(banner_read(flags, data@, at as int) == Some((opt_bytes(banner), start)));
    let mut frames: Vec<Frame> = Vec::new();
    let mut format_bits: u16 = formats;
    let mut speed_bits: u16 = speeds;
    let mut slot: usize = 0;
    assert(frame_views(frames@) =~= seq![]);
    while slot < 8
        invariant
            dirent@.len() >= ANIM_SPEED + 2,
            at as int == be32(dirent@, IMAGE_OFFSET as int),
            formats as int == be16(dirent@, ICON_FORMAT as int),
            speeds as int == be16(dirent@, ANIM_SPEED as int),
            flags == dirent@[BANNER_FLAGS as int],
            banner_read(flags, data@, at as int) == Some((opt_bytes(banner), start)),
            slot <= 8,
            cursor <= start + slot * 2048,
            start <= 0xFFFF_FFFF + 6144,
            frames_read(formats as int, speeds as int, 8, data@, start) == after(
                frame_views(frames@),
                frames_read(format_bits as int, speed_bits as int, (8 - slot) as nat, data@, cursor as int),
            ),
        ensures
            frames_read(formats as int, speeds as int, 8, data@, start) == Some(frame_views(frames@)),
        decreases 8 - slot,
    {
        let step = read_frame(data, cursor, format_bits % 4, speed_bits % 4);
        match step {
            None => {
                return None;
            },
            Some(None) => {
                assert(frame_views(frames@) + seq![] =~= frame_views(frames@));
                break;
            },
            Some(Some((frame, next))) => {
                let ghost before = frames@;
                let ghost rest = frames_read(
                    format_bits as int / 4,
                    speed_bits as int / 4,
                    (8 - slot - 1) as nat,
                    data@,
                    next as int,
                );
                frames.push(frame);
                proof {
                    assert(frame_views(frames@) =~= frame_views(before) + seq![
                        (frames@.last().png@, frames@.last().hold_ms),
                    ]);
                    lemma_after_after(
                        frame_views(before),
                        seq![(frames@.last().png@, frames@.last().hold_ms)],
                        rest,
                    );
                }
                cursor = next;
            },
        }
        format_bits = format_bits / 4;
        speed_bits = speed_bits / 4;
        slot = slot + 1;
        if slot == 8 {
            assert(frame_views(frames@) + seq![] =~= frame_views(frames@));
        }
    }
    value(frames, banner)
}

} // verus!
