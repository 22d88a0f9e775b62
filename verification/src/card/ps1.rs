//! PlayStation memory cards: what a save's first block says of it.
//!
//! The card filesystem itself is not read by this library. A save's first block is: it opens
//! with `SC`, then the number of icon frames, then the title in Shift-JIS, a table of sixteen
//! colours, and the frames themselves.

use vstd::prelude::*;
use crate::bytes::{le16, read_le16};
use crate::icon::{
    after, frame_views, icon_of, icon_view, lemma_after_after, tiled_png, value, Frame, FrameView,
    Icon, IconView, Rgba,
};
use crate::label::{admitted, opt_chars, shift_jis_field, shift_jis_label, value as label, Label};

verus! {

/// A five-bit channel widened to eight bits over its full range, so white stays white.
pub open spec fn widen5(channel: int) -> u8 {
    (channel * 255 / 31) as u8
}

/// The colour a little-endian BGR555 table entry stands for. Zero is the one fully transparent
/// entry; everything else is opaque.
pub open spec fn bgr555_color(value: u16) -> [u8; 4] {
    if value == 0 {
        [0, 0, 0, 0]
    } else {
        [widen5((value % 32) as int), widen5((value / 32 % 32) as int), widen5((value / 1024 % 32) as int), 255]
    }
}

/// A five-bit channel widened to eight bits.
fn widen(channel: u16) -> (r: u8)
    requires
        channel < 32,
    ensures
        r == widen5(channel as int),
{
    (channel as u32 * 255 / 31) as u8
}

/// The colour a BGR555 table entry stands for.
pub fn bgr555(value: u16) -> (r: [u8; 4])
    ensures
        r == bgr555_color(value),
{
    if value == 0 {
        return [0, 0, 0, 0];
    }
    [widen(value % 32), widen(value / 32 % 32), widen(value / 1024 % 32), 255]
}

/// How many icon frames the save carries, in the low nibble.
pub const FRAMES: usize = 0x02;
/// Where the title starts, and how long it runs, in Shift-JIS padded to its full width.
pub const TITLE: usize = 0x04;
pub const TITLE_LEN: usize = 64;
/// Where the sixteen colours are, each a little-endian BGR555.
pub const CLUT: usize = 0x60;
/// Where the frames start, each 16x16 at four bits a pixel.
pub const ICON: usize = 0x80;
pub const FRAME_LEN: usize = 128;
/// The most frames a save may carry, which is what the frame count is held to.
pub const MAX_FRAMES: u8 = 3;

/// Whether a block opens the way a save's first block does, with `SC`.
pub open spec fn opens_as_save(data: Seq<u8>) -> bool {
    data.len() >= 2 && data[0] == 0x53 && data[1] == 0x43
}

/// The title a save's first block gives it.
pub open spec fn save_title(data: Seq<u8>) -> Option<Seq<char>> {
    if !opens_as_save(data) || data.len() < TITLE + TITLE_LEN {
        None
    } else {
        admitted(shift_jis_label(data.subrange(TITLE as int, (TITLE + TITLE_LEN) as int)))
    }
}

/// Whether a block opens with `SC`.
fn has_magic(data: &[u8]) -> (r: bool)
    ensures
        r == opens_as_save(data@),
{
    data.len() >= 2 && data[0] == 0x53 && data[1] == 0x43
}

/// The title the console lists a save under.
pub fn title_of(data: &[u8]) -> (r: Option<Label>)
    ensures
        match save_title(data@) {
            Some(title) => r matches Some(found) && found.title@ == title && found.detail is None,
            None => r is None,
        },
{
    if !has_magic(data) || data.len() < TITLE + TITLE_LEN {
        return None;
    }
    label(shift_jis_field(&data[TITLE..TITLE + TITLE_LEN]), None)
}

/// The colour of pixel `p` of the frame stored at `at`: four bits a pixel, the high nibble the
/// left of each pair, looked up in the colour table.
pub open spec fn frame_color(data: Seq<u8>, at: int, p: int) -> [u8; 4] {
    let byte = data[at + p / 2];
    let entry = if p % 2 == 0 { byte / 16 } else { byte % 16 };
    bgr555_color(le16(data, CLUT as int + entry * 2) as u16)
}

/// The PNG of the frame stored at `at`: scanlines of sixteen, so the tile is the whole row.
pub open spec fn frame_picture(data: Seq<u8>, at: int) -> Option<Seq<u8>> {
    tiled_png(16, 16, 16, 1, Seq::new(256, |p: int| frame_color(data, at, p)))
}

/// The frames from `index` on up to `count`: nothing at all where the data runs out before a
/// frame does or its picture cannot be encoded. A PS1 icon keeps no timing of its own.
pub open spec fn frames_from(data: Seq<u8>, index: nat, count: nat) -> Option<Seq<FrameView>>
    decreases count - index,
{
    if index >= count {
        Some(seq![])
    } else if ICON + (index + 1) * FRAME_LEN > data.len() {
        None
    } else {
        match frame_picture(data, ICON + index * FRAME_LEN) {
            Some(png) => after(seq![(png, None::<u64>)], frames_from(data, index + 1, count)),
            None => None,
        }
    }
}

/// How many frames a save's first block says it carries, held to the most it may.
pub open spec fn frame_count(data: Seq<u8>) -> nat {
    let n = data[FRAMES as int] % 16;
    (if n < MAX_FRAMES { n } else { MAX_FRAMES }) as nat
}

/// The icon a save's first block carries.
pub open spec fn save_pictures(data: Seq<u8>) -> Option<IconView> {
    if !opens_as_save(data) || data.len() < ICON {
        None
    } else {
        match frames_from(data, 0, frame_count(data)) {
            Some(frames) => icon_of(frames, None),
            None => None,
        }
    }
}

/// The PNG of the frame stored at `at`.
fn frame_png(data: &[u8], at: usize) -> (r: Option<Vec<u8>>)
    requires
        ICON <= at,
        at + FRAME_LEN <= data@.len(),
    ensures
        crate::icon::opt_bytes(r) == frame_picture(data@, at as int),
{
    let total = data.len();
    let mut colors: Vec<[u8; 4]> = Vec::new();
    let mut p: usize = 0;
    while p < 256
        invariant
            total == data@.len(),
            ICON <= at,
            at + FRAME_LEN <= data@.len(),
            p <= 256,
            colors@ == Seq::new(p as nat, |q: int| frame_color(data@, at as int, q)),
        decreases 256 - p,
    {
        let byte = data[at + p / 2];
        let entry: u8 = if p % 2 == 0 {
            byte / 16
        } else {
            byte % 16
        };
        let word = read_le16(data, CLUT + entry as usize * 2);
        colors.push(bgr555(word));
        p = p + 1;
        assert(colors@ =~= Seq::new(p as nat, |q: int| frame_color(data@, at as int, q)));
    }
    Rgba::from_tiles(16, 16, (16, 1), colors.as_slice()).to_png()
}

/// The icon a PS1 save carries: up to three frames of 16x16, against sixteen colours.
///
/// Four bits a pixel, and the **high** nibble is the left one of each pair. Reading it the other
/// way round gives a picture that still looks like something: every pair of pixels swapped,
/// which combs each solid shape into stripes a pixel wide.
pub fn pictures(data: &[u8]) -> (r: Option<Icon>)
    ensures
        icon_view(r) == save_pictures(data@),
{
    if !has_magic(data) || data.len() < ICON {
        return None;
    }
    let nibble = data[FRAMES] % 16;
    let count: u8 = if nibble < MAX_FRAMES {
        nibble
    } else {
        MAX_FRAMES
    };
    let mut frames: Vec<Frame> = Vec::new();
    let mut index: usize = 0;
    assert(frame_views(frames@) =~= seq![]);
    while index < count as usize
        invariant
            opens_as_save(data@),
            data@.len() >= ICON,
            count as nat == frame_count(data@),
            index <= count,
            frames_from(data@, 0, count as nat) == after(
                frame_views(frames@),
                frames_from(data@, index as nat, count as nat),
            ),
        ensures
            frames_from(data@, 0, count as nat) == Some(frame_views(frames@)),
        decreases count - index,
    {
        let at = ICON + index * FRAME_LEN;
        if at + FRAME_LEN > data.len() {
            return None;
        }
        let png = match frame_png(data, at) {
            Some(png) => png,
            None => return None,
        };
        let ghost before = frames@;
        frames.push(Frame { png, hold_ms: None });
        proof {
            assert(frame_views(frames@) =~= frame_views(before) + seq![(frames@.last().png@, None::<u64>)]);
            lemma_after_after(
                frame_views(before),
                seq![(frames@.last().png@, None::<u64>)],
                frames_from(data@, (index + 1) as nat, count as nat),
            );
        }
        index = index + 1;
        if index == count as usize {
            assert(frame_views(frames@) + seq![] =~= frame_views(frames@));
        }
    }
    if count == 0 {
        assert(frame_views(frames@) + seq![] =~= frame_views(frames@));
    }
    value(frames, None)
}

} // verus!
