//! Console icons, decoded to straight-alpha RGBA and encoded as PNG.
//!
//! A PS1 icon is 4bpp against a 16-colour table, a GameCube icon is RGB5A3 or CI8 depending on two
//! bits in the directory entry, and a consumer that wanted to show a save's picture would
//! otherwise have to know all of them.
//!
//! Nothing here improves the picture. Scaling it up, correcting its palette and reordering frames
//! all produce something the card does not hold, so the pixels come out at the size and in the
//! order the console stored them.

use vstd::prelude::*;
use crate::bytes::{be16 as be16_at, read_be16};

verus! {

/// Straight-alpha RGBA, eight bits a channel, which is what a PNG here carries.
pub struct Rgba {
    pub width: usize,
    pub height: usize,
    pub pixels: Vec<u8>,
}

/// Which pixel of the stored stream lands at column `x`, row `y` of a tiled texture: tiles run
/// row-major across the image and pixels row-major within a tile.
pub open spec fn tiled_index(width: int, tile_w: int, tile_h: int, x: int, y: int) -> int {
    ((y / tile_h) * (width / tile_w) + x / tile_w) * (tile_w * tile_h) + (y % tile_h) * tile_w + x % tile_w
}

/// The pixels of a tiled texture laid out in scanlines, four bytes each.
pub open spec fn untiled(width: int, height: int, tile_w: int, tile_h: int, colors: Seq<[u8; 4]>) -> Seq<u8> {
    Seq::new(
        (width * height * 4) as nat,
        |k: int| colors[tiled_index(width, tile_w, tile_h, (k / 4) % width, (k / 4) / width)][k % 4],
    )
}

/// Every pixel of a texture whose size is a whole number of tiles has a place in the stream.
proof fn lemma_tiled_index_in_range(width: int, height: int, tile_w: int, tile_h: int, x: int, y: int)
    requires
        tile_w > 0,
        tile_h > 0,
        width % tile_w == 0,
        height % tile_h == 0,
        0 <= x < width,
        0 <= y < height,
    ensures
        0 <= tiled_index(width, tile_w, tile_h, x, y) < width * height,
        0 <= (y / tile_h) * (width / tile_w) <= width * height,
        0 <= (y / tile_h) * (width / tile_w) + x / tile_w <= width * height,
        0 <= tile_w * tile_h <= width * height,
        0 <= ((y / tile_h) * (width / tile_w) + x / tile_w) * (tile_w * tile_h) <= width * height,
        0 <= (y % tile_h) * tile_w <= width * height,
{
    let a = width / tile_w;
    let b = height / tile_h;
    let tr = y / tile_h;
    let tc = x / tile_w;
    let ry = y % tile_h;
    let rx = x % tile_w;
    assert(width == a * tile_w && height == b * tile_h) by {
        vstd::arithmetic::div_mod::lemma_fundamental_div_mod(width, tile_w);
        vstd::arithmetic::div_mod::lemma_fundamental_div_mod(height, tile_h);
    }
    assert(y == tr * tile_h + ry && x == tc * tile_w + rx) by {
        vstd::arithmetic::div_mod::lemma_fundamental_div_mod(y, tile_h);
        vstd::arithmetic::div_mod::lemma_fundamental_div_mod(x, tile_w);
    }
    assert(0 <= ry < tile_h && 0 <= rx < tile_w) by {
        vstd::arithmetic::div_mod::lemma_mod_bound(y, tile_h);
        vstd::arithmetic::div_mod::lemma_mod_bound(x, tile_w);
    }
    assert(0 <= tr < b && 0 <= tc < a) by (nonlinear_arith)
        requires
            y == tr * tile_h + ry,
            x == tc * tile_w + rx,
            0 <= ry < tile_h,
            0 <= rx < tile_w,
            0 <= y < height,
            0 <= x < width,
            width == a * tile_w,
            height == b * tile_h,
            tile_w > 0,
            tile_h > 0,
    ;
    assert(0 <= (tr * a + tc) * (tile_w * tile_h) + ry * tile_w + rx < width * height
        && 0 <= tr * a <= width * height && 0 <= tr * a + tc <= width * height
        && 0 <= tile_w * tile_h <= width * height
        && 0 <= (tr * a + tc) * (tile_w * tile_h) <= width * height
        && 0 <= ry * tile_w <= width * height) by (nonlinear_arith)
        requires
            0 <= tr < b,
            0 <= tc < a,
            0 <= ry < tile_h,
            0 <= rx < tile_w,
            width == a * tile_w,
            height == b * tile_h,
            tile_w > 0,
            tile_h > 0,
    ;
}

/// Whether stored pixel `j` lands at some place of the picture.
pub open spec fn lands(width: int, height: int, tile_w: int, tile_h: int, j: int) -> bool {
    exists|x: int, y: int|
        0 <= x < width && 0 <= y < height && #[trigger] tiled_index(width, tile_w, tile_h, x, y) == j
}

/// A place in a tiled texture, taken apart: which tile it is in, counted row-major, and where it
/// is within that tile.
proof fn lemma_tile_parts(width: int, tile_w: int, tile_h: int, x: int, y: int)
    requires
        tile_w > 0,
        tile_h > 0,
        0 <= x,
        0 <= y,
        width % tile_w == 0,
    ensures
        tiled_index(width, tile_w, tile_h, x, y) == ((y / tile_h) * (width / tile_w) + x / tile_w) * (
        tile_w * tile_h) + ((y % tile_h) * tile_w + x % tile_w),
        0 <= (y % tile_h) * tile_w + x % tile_w < tile_w * tile_h,
{
    vstd::arithmetic::div_mod::lemma_mod_bound(x, tile_w);
    vstd::arithmetic::div_mod::lemma_mod_bound(y, tile_h);
    let ry = y % tile_h;
    let rx = x % tile_w;
    assert(0 <= ry * tile_w + rx < tile_w * tile_h) by (nonlinear_arith)
        requires
            0 <= ry < tile_h,
            0 <= rx < tile_w,
            tile_w > 0,
    ;
}

/// The layout of a tiled texture whose sides are whole numbers of tiles reads each stored pixel
/// exactly once: no two places of the picture take the same stored pixel, and every one of the
/// `width * height` stored pixels lands at some place.
pub proof fn lemma_each_stored_pixel_lands_once(width: int, height: int, tile_w: int, tile_h: int)
    requires
        tile_w > 0,
        tile_h > 0,
        width >= 0,
        height >= 0,
        width % tile_w == 0,
        height % tile_h == 0,
    ensures
        forall|x1: int, y1: int, x2: int, y2: int|
            0 <= x1 < width && 0 <= y1 < height && 0 <= x2 < width && 0 <= y2 < height
                && #[trigger] tiled_index(width, tile_w, tile_h, x1, y1) == #[trigger] tiled_index(
                width,
                tile_w,
                tile_h,
                x2,
                y2,
            ) ==> x1 == x2 && y1 == y2,
        forall|j: int| 0 <= j < width * height ==> #[trigger] lands(width, height, tile_w, tile_h, j),
{
    let a = tile_w * tile_h;
    let wt = width / tile_w;
    let ht = height / tile_h;
    assert(a > 0) by (nonlinear_arith)
        requires
            a == tile_w * tile_h,
            tile_w > 0,
            tile_h > 0,
    ;
    vstd::arithmetic::div_mod::lemma_fundamental_div_mod(width, tile_w);
    vstd::arithmetic::div_mod::lemma_fundamental_div_mod(height, tile_h);
    assert forall|x1: int, y1: int, x2: int, y2: int|
        0 <= x1 < width && 0 <= y1 < height && 0 <= x2 < width && 0 <= y2 < height
            && #[trigger] tiled_index(width, tile_w, tile_h, x1, y1) == #[trigger] tiled_index(
            width,
            tile_w,
            tile_h,
            x2,
            y2,
        ) implies x1 == x2 && y1 == y2 by {
        lemma_tile_parts(width, tile_w, tile_h, x1, y1);
        lemma_tile_parts(width, tile_w, tile_h, x2, y2);
        let t1 = (y1 / tile_h) * wt + x1 / tile_w;
        let t2 = (y2 / tile_h) * wt + x2 / tile_w;
        let r1 = (y1 % tile_h) * tile_w + x1 % tile_w;
        let r2 = (y2 % tile_h) * tile_w + x2 % tile_w;
        let idx = tiled_index(width, tile_w, tile_h, x1, y1);
        vstd::arithmetic::div_mod::lemma_fundamental_div_mod_converse(idx, a, t1, r1);
        vstd::arithmetic::div_mod::lemma_fundamental_div_mod_converse(idx, a, t2, r2);
        vstd::arithmetic::div_mod::lemma_mod_bound(x1, tile_w);
        vstd::arithmetic::div_mod::lemma_mod_bound(x2, tile_w);
        vstd::arithmetic::div_mod::lemma_fundamental_div_mod_converse(r1, tile_w, y1 % tile_h, x1 % tile_w);
        vstd::arithmetic::div_mod::lemma_fundamental_div_mod_converse(r1, tile_w, y2 % tile_h, x2 % tile_w);
        assert(x1 / tile_w < wt && x2 / tile_w < wt) by {
            vstd::arithmetic::div_mod::lemma_div_is_ordered(x1, width - 1, tile_w);
            vstd::arithmetic::div_mod::lemma_div_is_ordered(x2, width - 1, tile_w);
            vstd::arithmetic::div_mod::lemma_fundamental_div_mod(width - 1, tile_w);
            vstd::arithmetic::div_mod::lemma_mod_bound(width - 1, tile_w);
            assert((width - 1) / tile_w < wt) by (nonlinear_arith)
                requires
                    width - 1 == tile_w * ((width - 1) / tile_w) + (width - 1) % tile_w,
                    0 <= (width - 1) % tile_w,
                    width == tile_w * wt,
                    tile_w > 0,
            ;
        }
        vstd::arithmetic::div_mod::lemma_div_pos_is_pos(x1, tile_w);
        vstd::arithmetic::div_mod::lemma_div_pos_is_pos(x2, tile_w);
        vstd::arithmetic::div_mod::lemma_fundamental_div_mod_converse(t1, wt, y1 / tile_h, x1 / tile_w);
        vstd::arithmetic::div_mod::lemma_fundamental_div_mod_converse(t1, wt, y2 / tile_h, x2 / tile_w);
        vstd::arithmetic::div_mod::lemma_fundamental_div_mod(x1, tile_w);
        vstd::arithmetic::div_mod::lemma_fundamental_div_mod(x2, tile_w);
        vstd::arithmetic::div_mod::lemma_fundamental_div_mod(y1, tile_h);
        vstd::arithmetic::div_mod::lemma_fundamental_div_mod(y2, tile_h);
    }
    assert forall|j: int| 0 <= j < width * height implies #[trigger] lands(width, height, tile_w, tile_h, j) by {
        let t = j / a;
        let r = j % a;
        vstd::arithmetic::div_mod::lemma_fundamental_div_mod(j, a);
        vstd::arithmetic::div_mod::lemma_mod_bound(j, a);
        vstd::arithmetic::div_mod::lemma_div_pos_is_pos(j, a);
        let ry = r / tile_w;
        let rx = r % tile_w;
        vstd::arithmetic::div_mod::lemma_fundamental_div_mod(r, tile_w);
        vstd::arithmetic::div_mod::lemma_mod_bound(r, tile_w);
        vstd::arithmetic::div_mod::lemma_div_pos_is_pos(r, tile_w);
        assert(ry < tile_h) by (nonlinear_arith)
            requires
                r == tile_w * ry + rx,
                0 <= rx,
                r < tile_w * tile_h,
                tile_w > 0,
        ;
        assert(wt > 0 && ht > 0) by (nonlinear_arith)
            requires
                0 <= j < width * height,
                width >= 0,
                height >= 0,
                width == tile_w * wt,
                height == tile_h * ht,
                tile_w > 0,
                tile_h > 0,
        ;
        assert(t < wt * ht) by (nonlinear_arith)
            requires
                j == a * t + r,
                0 <= r,
                j < width * height,
                width == tile_w * wt,
                height == tile_h * ht,
                a == tile_w * tile_h,
                a > 0,
        ;
        let ty = t / wt;
        let tx = t % wt;
        vstd::arithmetic::div_mod::lemma_fundamental_div_mod(t, wt);
        vstd::arithmetic::div_mod::lemma_mod_bound(t, wt);
        vstd::arithmetic::div_mod::lemma_div_pos_is_pos(t, wt);
        assert(ty < ht) by (nonlinear_arith)
            requires
                t == wt * ty + tx,
                0 <= tx,
                t < wt * ht,
                wt > 0,
        ;
        let x = tx * tile_w + rx;
        let y = ty * tile_h + ry;
        assert(0 <= x < width && 0 <= y < height) by (nonlinear_arith)
            requires
                x == tx * tile_w + rx,
                y == ty * tile_h + ry,
                0 <= tx < wt,
                0 <= rx < tile_w,
                0 <= ty < ht,
                0 <= ry < tile_h,
                width == tile_w * wt,
                height == tile_h * ht,
        ;
        vstd::arithmetic::div_mod::lemma_fundamental_div_mod_converse(x, tile_w, tx, rx);
        vstd::arithmetic::div_mod::lemma_fundamental_div_mod_converse(y, tile_h, ty, ry);
        lemma_tile_parts(width, tile_w, tile_h, x, y);
        assert((ty * wt + tx) * a + (ry * tile_w + rx) == j) by (nonlinear_arith)
            requires
                j == a * t + r,
                t == wt * ty + tx,
                r == tile_w * ry + rx,
        ;
        assert(tiled_index(width, tile_w, tile_h, x, y) == j);
    }
}

impl Rgba {
    /// Reads a tiled texture, which is how a GameCube stores one: `colors` is every pixel in the
    /// order the texture stores them.
    ///
    /// Pixels run row-major *within* a tile and the tiles run row-major across the image, so a
    /// reader that walks scanlines gets a shuffled picture rather than an obviously broken one.
    /// Tile geometry follows the pixel size: 4x4 for two bytes a pixel, 8x4 for one.
    pub fn from_tiles(width: usize, height: usize, tile: (usize, usize), colors: &[[u8; 4]]) -> (r: Self)
        requires
            tile.0 > 0,
            tile.1 > 0,
            width % tile.0 == 0,
            height % tile.1 == 0,
            width * height * 4 <= usize::MAX,
            colors@.len() >= width * height,
        ensures
            r.width == width,
            r.height == height,
            r.pixels@ == untiled(width as int, height as int, tile.0 as int, tile.1 as int, colors@),
    {
        let (tile_w, tile_h) = tile;
        let count = width * height;
        let mut pixels: Vec<u8> = Vec::new();
        let mut k: usize = 0;
        while k < count
            invariant
                k <= count,
                count == width * height,
                width * height * 4 <= usize::MAX,
                tile_w > 0,
                tile_h > 0,
                width % tile_w == 0,
                height % tile_h == 0,
                colors@.len() >= width * height,
                pixels@ == untiled(width as int, height as int, tile_w as int, tile_h as int, colors@).take(
                    k * 4,
                ),
            decreases count - k,
        {
            let x = k % width;
            let y = k / width;
            proof {
                assert(width > 0) by (nonlinear_arith)
                    requires
                        k < width * height,
                ;
                assert(y < height) by (nonlinear_arith)
                    requires
                        k < width * height,
                        y == k / width,
                        width > 0,
                ;
                lemma_tiled_index_in_range(width as int, height as int, tile_w as int, tile_h as int, x as int, y as int);
            }
            let index = ((y / tile_h) * (width / tile_w) + x / tile_w) * (tile_w * tile_h) + (y % tile_h)
                * tile_w + x % tile_w;
            let color = colors[index];
            let ghost before = pixels@;
            pixels.push(color[0]);
            pixels.push(color[1]);
            pixels.push(color[2]);
            pixels.push(color[3]);
            proof {
                let u = untiled(width as int, height as int, tile_w as int, tile_h as int, colors@);
                assert forall|c: int| 0 <= c < 4 implies u[k * 4 + c] == color[c] by {
                    assert((k * 4 + c) / 4 == k) by (nonlinear_arith)
                        requires
                            0 <= c < 4,
                    ;
                    assert((k * 4 + c) % 4 == c) by (nonlinear_arith)
                        requires
                            0 <= c < 4,
                    ;
                }
                assert(k * 4 + 4 <= width * height * 4);
                assert(pixels@ =~= u.take(k * 4 + 4));
            }
            k = k + 1;
        }
        Rgba { width, height, pixels }
    }
}

/// What encoding RGBA pixels of a given size as an 8-bit PNG with the `png` crate gives: the file,
/// or nothing when the encoder refuses.
pub uninterp spec fn png_encoding(width: u32, height: u32, pixels: Seq<u8>) -> Option<Seq<u8>>;

/// The bytes of an optional run, as values.
pub open spec fn opt_bytes(o: Option<Vec<u8>>) -> Option<Seq<u8>> {
    match o {
        Some(v) => Some(v@),
        None => None,
    }
}

/// `png::Encoder` writing 8-bit RGBA: the header, then the image data. What it writes is left to
/// the name; a refusal of either step is `None`.
#[verifier::external_body]
fn encode_png(width: u32, height: u32, pixels: &[u8]) -> (r: Option<Vec<u8>>)
    ensures
        opt_bytes(r) == png_encoding(width, height, pixels@),
{
    let mut out = Vec::new();
    {
        let mut encoder = png::Encoder::new(&mut out, width, height);
        encoder.set_color(png::ColorType::Rgba);
        encoder.set_depth(png::BitDepth::Eight);
        let Ok(mut writer) = encoder.write_header() else { return None };
        writer.write_image_data(pixels).ok()?;
    }
    Some(out)
}

/// The PNG a picture is carried as: its encoding, when its sides fit the format and the file is
/// neither empty nor past the 64 KiB a frame may take.
pub open spec fn png_frame(width: usize, height: usize, pixels: Seq<u8>) -> Option<Seq<u8>> {
    if width > u32::MAX || height > u32::MAX {
        None
    } else {
        match png_encoding(width as u32, height as u32, pixels) {
            Some(out) => if 0 < out.len() <= 65_536 {
                Some(out)
            } else {
                None
            },
            None => None,
        }
    }
}

impl Rgba {
    /// Encodes as a PNG, which is what an icon is carried as.
    ///
    /// A frame caps at 64 KiB. An icon that will not fit is dropped rather than resized, since
    /// resizing it would be improving the picture.
    pub fn to_png(&self) -> (r: Option<Vec<u8>>)
        ensures
            opt_bytes(r) == png_frame(self.width, self.height, self.pixels@),
    {
        if self.width > 0xFFFF_FFFF || self.height > 0xFFFF_FFFF {
            return None;
        }
        let out = match encode_png(self.width as u32, self.height as u32, self.pixels.as_slice()) {
            Some(out) => out,
            None => {
                return None;
            },
        };
        if out.len() > 0 && out.len() <= 65_536 {
            Some(out)
        } else {
            None
        }
    }
}

/// A channel widened to eight bits over its full range, so white stays white.
pub open spec fn widened(value: int, max: int) -> u8 {
    (value * 255 / max) as u8
}

/// Widens a channel to eight bits over its full range, so white stays white.
pub fn scale(value: u16, max: u16) -> (r: u8)
    requires
        0 < max,
        value <= max,
    ensures
        r == widened(value as int, max as int),
{
    proof {
        assert((value as int) * 255 / (max as int) <= 255) by (nonlinear_arith)
            requires
                0 < max,
                value <= max,
        ;
    }
    (value as u32 * 255 / max as u32) as u8
}

/// The colour of one RGB5A3 pixel, the format a GameCube uses for an icon that carries its own
/// colours. The top bit picks the layout: set, the remaining fifteen are RGB555 and the pixel is
/// opaque; clear, they are a three-bit alpha over four-bit channels.
pub open spec fn rgb5a3_color(value: u16) -> [u8; 4] {
    let v = value as int;
    if v >= 0x8000 {
        [widened(v / 1024 % 32, 31), widened(v / 32 % 32, 31), widened(v % 32, 31), 255]
    } else {
        [widened(v / 256 % 16, 15), widened(v / 16 % 16, 15), widened(v % 16, 15), widened(v / 4096 % 8, 7)]
    }
}

/// One RGB5A3 pixel.
pub fn rgb5a3(value: u16) -> (r: [u8; 4])
    ensures
        r == rgb5a3_color(value),
{
    if value >= 0x8000 {
        [scale(value / 1024 % 32, 31), scale(value / 32 % 32, 31), scale(value % 32, 31), 255]
    } else {
        [scale(value / 256 % 16, 15), scale(value / 16 % 16, 15), scale(value % 16, 15), scale(value / 4096 % 8, 7)]
    }
}

/// The big-endian 16-bit value at a pixel index, or zero past the end of the run.
pub open spec fn pixel_word(bytes: Seq<u8>, index: int) -> u16 {
    if 2 * index + 2 <= bytes.len() {
        be16_at(bytes, 2 * index) as u16
    } else {
        0
    }
}

/// Reads a big-endian `u16` at a pixel index, which is how every 16-bit format here is stored.
pub fn be16(bytes: &[u8], index: usize) -> (r: u16)
    requires
        index * 2 + 2 <= usize::MAX,
    ensures
        r == pixel_word(bytes@, index as int),
{
    let at = index * 2;
    if at + 2 <= bytes.len() {
        read_be16(bytes, at)
    } else {
        0
    }
}

/// One frame, and how long it shows before the next.
#[derive(Debug, Clone, PartialEq, Eq)]
pub struct Frame {
    /// The frame as a PNG.
    pub png: Vec<u8>,
    /// How long it shows, where the format says. A still icon says nothing.
    pub hold_ms: Option<u64>,
}

/// A save's pictures: the frames in display order, and a banner where a format keeps one.
#[derive(Debug, Clone, PartialEq, Eq)]
pub struct Icon {
    /// The frames.
    pub frames: Vec<Frame>,
    /// The banner, as a PNG.
    pub banner: Option<Vec<u8>>,
}

/// A frame as values: its PNG and its hold.
pub type FrameView = (Seq<u8>, Option<u64>);

/// The values of a run of frames.
pub open spec fn frame_views(frames: Seq<Frame>) -> Seq<FrameView> {
    Seq::new(frames.len(), |i: int| (frames[i].png@, frames[i].hold_ms))
}

/// A save's pictures as values: the frames, and the banner.
pub type IconView = (Seq<FrameView>, Option<Seq<u8>>);

/// The values of an optional icon.
pub open spec fn icon_view(icon: Option<Icon>) -> Option<IconView> {
    match icon {
        Some(i) => Some((frame_views(i.frames@), opt_bytes(i.banner))),
        None => None,
    }
}

/// The icon frames and a banner make: none without a frame.
pub open spec fn icon_of(frames: Seq<FrameView>, banner: Option<Seq<u8>>) -> Option<IconView> {
    if frames.len() == 0 {
        None
    } else {
        Some((frames, banner))
    }
}

/// The icon frames and a banner make: none without a frame, since a banner alone is no icon.
pub fn value(frames: Vec<Frame>, banner: Option<Vec<u8>>) -> (r: Option<Icon>)
    ensures
        icon_view(r) == icon_of(frame_views(frames@), opt_bytes(banner)),
{
    if frames.len() == 0 {
        return None;
    }
    Some(Icon { frames, banner })
}

/// The colours of `n` pixels stored as big-endian RGB5A3, in stored order.
pub open spec fn rgb5a3_colors(bytes: Seq<u8>, n: int) -> Seq<[u8; 4]> {
    Seq::new(n as nat, |i: int| rgb5a3_color(pixel_word(bytes, i)))
}

/// The colours of `n` pixels stored as indices into a 256-entry RGB5A3 palette, in stored order.
pub open spec fn ci8_colors(indices: Seq<u8>, palette: Seq<u8>, n: int) -> Seq<[u8; 4]> {
    Seq::new(n as nat, |i: int| rgb5a3_color(pixel_word(palette, indices[i] as int)))
}

/// The colours of pixels stored as big-endian RGB5A3.
pub fn rgb5a3_pixels(bytes: &[u8], n: usize) -> (r: Vec<[u8; 4]>)
    requires
        n <= 0x1000,
    ensures
        r@ == rgb5a3_colors(bytes@, n as int),
{
    let mut out: Vec<[u8; 4]> = Vec::new();
    let mut i: usize = 0;
    while i < n
        invariant
            i <= n,
            n <= 0x1000,
            out@ == rgb5a3_colors(bytes@, i as int),
        decreases n - i,
    {
        out.push(rgb5a3(be16(bytes, i)));
        i = i + 1;
        assert(out@ =~= rgb5a3_colors(bytes@, i as int));
    }
    out
}

/// The colours of pixels stored as indices into an RGB5A3 palette.
pub fn ci8_pixels(indices: &[u8], palette: &[u8], n: usize) -> (r: Vec<[u8; 4]>)
    requires
        n <= indices@.len(),
    ensures
        r@ == ci8_colors(indices@, palette@, n as int),
{
    let mut out: Vec<[u8; 4]> = Vec::new();
    let mut i: usize = 0;
    while i < n
        invariant
            i <= n,
            n <= indices@.len(),
            out@ == ci8_colors(indices@, palette@, i as int),
        decreases n - i,
    {
        out.push(rgb5a3(be16(palette, indices[i] as usize)));
        i = i + 1;
        assert(out@ =~= ci8_colors(indices@, palette@, i as int));
    }
    out
}

/// The PNG of a tiled picture of these colours.
pub open spec fn tiled_png(width: int, height: int, tile_w: int, tile_h: int, colors: Seq<[u8; 4]>) -> Option<Seq<u8>> {
    png_frame(width as usize, height as usize, untiled(width, height, tile_w, tile_h, colors))
}

/// A run appended after frames already read, where the rest reads at all.
pub open spec fn after(read: Seq<FrameView>, rest: Option<Seq<FrameView>>) -> Option<Seq<FrameView>> {
    match rest {
        Some(more) => Some(read + more),
        None => None,
    }
}

/// Frames read after frames read are read after both.
pub(crate) proof fn lemma_after_after(a: Seq<FrameView>, b: Seq<FrameView>, rest: Option<Seq<FrameView>>)
    ensures
        after(a + b, rest) == after(a, after(b, rest)),
{
    match rest {
        Some(more) => {
            assert(a + b + more =~= a + (b + more));
        },
        None => {},
    }
}

} // verus!
