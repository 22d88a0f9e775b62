//! GameCube memory card images.
//!
//! A card is 8 KiB blocks, big-endian throughout. Block 0 is the header, blocks 1 and 2 the
//! directory and its mirror, blocks 3 and 4 the block-allocation table and its mirror, and block 5
//! onward the saves. Each mirror carries an update counter, and the console reads whichever of the
//! pair counted higher, which is what makes a half-finished write survivable.
//!
//! The directory's checksum pair sits in its **last** four bytes and covers everything before
//! them. The table's sits in its **first** four and covers everything after. Conflating the two
//! produces a card that reads back fine in one implementation and nowhere else, which is why
//! [`checksum`] and its two stampers are separate rather than one call with an offset.

pub mod writer;

use vstd::prelude::*;
use crate::bytes::{be16, be16_bytes, copy_of, read_be16};
use crate::chain::{chain_ends, chain_seq, follow_counted, gather, gather_blocks, lemma_lists_chain, link};
use crate::text::{ascii_text, from_utf8_lossy, graphic_ascii, graphic_only, lossy_utf8, until_nul, until_nul_spec};

verus! {

/// One block: the unit the allocation table counts and a save occupies.
pub const BLOCK: usize = 8192;

/// The header, the directory and its mirror, the table and its mirror.
pub const RESERVED_BLOCKS: usize = 5;

/// Where the directory lives.
pub const DIR_BLOCK: usize = 1;

/// Where the directory's mirror lives.
pub const DIR_MIRROR_BLOCK: usize = 2;

/// Where the block-allocation table lives.
pub const BAT_BLOCK: usize = 3;

/// Where the allocation table's mirror lives.
pub const BAT_MIRROR_BLOCK: usize = 4;

/// A directory entry's length.
pub const ENTRY_LEN: usize = 64;

/// How many saves a card holds, whatever its size.
pub const MAX_ENTRIES: usize = 127;

/// A block-allocation table entry meaning "this is the last block of its file".
pub const CHAIN_END: u16 = 0xFFFF;

/// Where the allocation table's map starts, past its checksum pair, counter, free count and
/// last-allocated fields.
pub const MAP_OFFSET: usize = 0x0A;

/// Whether a card of this many blocks is one the console formats: 64 to 2048, doubling.
pub open spec fn known_size(blocks: int) -> bool {
    blocks == 64 || blocks == 128 || blocks == 256 || blocks == 512 || blocks == 1024 || blocks == 2048
}

/// Whether an image is a whole number of blocks in a size the console formats.
pub open spec fn card_shaped(len: int) -> bool {
    len % (BLOCK as int) == 0 && known_size(len / (BLOCK as int))
}

/// Whether an image is a whole number of blocks in a size the console formats.
fn is_card_shaped(len: usize) -> (r: bool)
    ensures
        r == card_shaped(len as int),
{
    let blocks = len / BLOCK;
    len % BLOCK == 0 && (blocks == 64 || blocks == 128 || blocks == 256 || blocks == 512 || blocks
        == 1024 || blocks == 2048)
}

/// The sum of the first `n` big-endian words.
pub open spec fn word_sum(b: Seq<u8>, n: int) -> int
    decreases n,
{
    if n <= 0 {
        0
    } else {
        word_sum(b, n - 1) + be16(b, 2 * (n - 1))
    }
}

/// The sum of the complements of the first `n` big-endian words.
pub open spec fn complement_sum(b: Seq<u8>, n: int) -> int
    decreases n,
{
    if n <= 0 {
        0
    } else {
        complement_sum(b, n - 1) + (0xFFFF - be16(b, 2 * (n - 1)))
    }
}

/// A sum kept to sixteen bits, with the all-ones value the console reserves folded to zero.
pub open spec fn fold_sum(v: int) -> u16 {
    if v % 0x1_0000 == 0xFFFF {
        0
    } else {
        (v % 0x1_0000) as u16
    }
}

/// The checksum pair of a region: the sum of its big-endian words and the sum of their
/// complements, sixteen bits each, a trailing odd byte left out.
pub open spec fn checksum_spec(b: Seq<u8>) -> (u16, u16) {
    (fold_sum(word_sum(b, b.len() as int / 2)), fold_sum(complement_sum(b, b.len() as int / 2)))
}

/// The checksum pair the console puts on the directory and the table.
///
/// It is a 16-bit sum of the region's big-endian words, alongside a sum of their complements. The
/// two are stored together so a region of all-ones, which is what an erased block reads as, does
/// not produce a checksum that happens to match.
pub fn checksum(bytes: &[u8]) -> (r: (u16, u16))
    ensures
        r == checksum_spec(bytes@),
{
    let len = bytes.len();
    let n = len / 2;
    let mut sum: u16 = 0;
    let mut inverse: u16 = 0;
    let mut i: usize = 0;
    while i < n
        invariant
            i <= n,
            len == bytes@.len(),
            n == len / 2,
            sum as int == word_sum(bytes@, i as int) % 0x1_0000,
            inverse as int == complement_sum(bytes@, i as int) % 0x1_0000,
        decreases n - i,
    {
        let value = read_be16(bytes, 2 * i);
        let complement = !value;
        assert(complement == 0xFFFF - value) by (bit_vector)
            requires
                complement == !value,
        ;
        proof {
            let ws = word_sum(bytes@, i as int);
            let cs = complement_sum(bytes@, i as int);
            vstd::arithmetic::div_mod::lemma_add_mod_noop_right(value as int, ws, 0x1_0000);
            vstd::arithmetic::div_mod::lemma_add_mod_noop_right(complement as int, cs, 0x1_0000);
            vstd::arithmetic::div_mod::lemma_mod_self_0(0x1_0000);
            assert(word_sum(bytes@, i + 1) == ws + value);
            assert(complement_sum(bytes@, i + 1) == cs + complement);
            assert((sum + value) % 0x1_0000 == if sum + value >= 0x1_0000 { sum + value - 0x1_0000 } else { sum + value });
            assert((inverse + complement) % 0x1_0000 == if inverse + complement >= 0x1_0000 { inverse + complement - 0x1_0000 } else { inverse + complement });
        }
        sum = sum.wrapping_add(value);
        inverse = inverse.wrapping_add(complement);
        i = i + 1;
    }
    // The console normalises the all-ones case to zero on both halves.
    if sum == 0xFFFF {
        sum = 0;
    }
    if inverse == 0xFFFF {
        inverse = 0;
    }
    (sum, inverse)
}

/// Whether a directory block's checksum pair, in its last four bytes, matches the rest of it.
pub open spec fn directory_valid(d: Seq<u8>) -> bool {
    d.len() >= BLOCK && checksum_spec(d.take(BLOCK - 4)) == (
        be16(d, BLOCK - 4) as u16,
        be16(d, BLOCK - 2) as u16,
    )
}

/// Whether a table block's checksum pair, in its first four bytes, matches the rest of it.
pub open spec fn table_valid(t: Seq<u8>) -> bool {
    t.len() >= BLOCK && checksum_spec(t.skip(4)) == (be16(t, 0) as u16, be16(t, 2) as u16)
}

/// The directory's checksum pair sits in its **last** four bytes and covers everything before them.
pub fn directory_is_valid(directory: &[u8]) -> (r: bool)
    ensures
        r == directory_valid(directory@),
{
    if directory.len() < BLOCK {
        return false;
    }
    let (sum, inverse) = checksum(&directory[0..BLOCK - 4]);
    assert(directory@.subrange(0, BLOCK - 4) =~= directory@.take(BLOCK - 4));
    sum == read_be16(directory, BLOCK - 4) && inverse == read_be16(directory, BLOCK - 2)
}

/// The table's checksum pair sits in its **first** four bytes and covers everything after them.
pub fn table_is_valid(table: &[u8]) -> (r: bool)
    ensures
        r == table_valid(table@),
{
    if table.len() < BLOCK {
        return false;
    }
    let (sum, inverse) = checksum(&table[4..table.len()]);
    assert(table@.subrange(4, table@.len() as int) =~= table@.skip(4));
    sum == read_be16(table, 0) && inverse == read_be16(table, 2)
}

/// A directory block with its checksum pair put in its last four bytes.
pub open spec fn stamped_directory(d: Seq<u8>) -> Seq<u8> {
    let (sum, inverse) = checksum_spec(d.take(BLOCK - 4));
    d.take(BLOCK - 4) + be16_bytes(sum as int) + be16_bytes(inverse as int)
}

/// A table block with its checksum pair put in its first four bytes.
pub open spec fn stamped_table(t: Seq<u8>) -> Seq<u8> {
    let (sum, inverse) = checksum_spec(t.skip(4));
    be16_bytes(sum as int) + be16_bytes(inverse as int) + t.skip(4)
}

/// Writes a 16-bit value big-endian at `at`.
fn put_be16(region: &mut Vec<u8>, at: usize, v: u16)
    requires
        at + 2 <= old(region)@.len(),
    ensures
        final(region)@ == old(region)@.take(at as int) + be16_bytes(v as int) + old(region)@.skip(
            at + 2,
        ),
{
    let high = (v / 256) as u8;
    let low = (v % 256) as u8;
    let _len = region.len();
    region.set(at, high);
    region.set(at + 1, low);
    assert(final(region)@ =~= old(region)@.take(at as int) + be16_bytes(v as int) + old(region)@.skip(
        at + 2,
    ));
}

/// Puts the directory's checksum pair in its last four bytes.
pub fn stamp_directory_checksum(region: &mut Vec<u8>)
    requires
        old(region)@.len() == BLOCK,
    ensures
        final(region)@ == stamped_directory(old(region)@),
{
    let (sum, inverse) = checksum(&region.as_slice()[0..BLOCK - 4]);
    assert(old(region)@.subrange(0, BLOCK - 4) =~= old(region)@.take(BLOCK - 4));
    put_be16(region, BLOCK - 4, sum);
    put_be16(region, BLOCK - 2, inverse);
    assert(final(region)@ =~= stamped_directory(old(region)@));
}

/// Puts the table's checksum pair in its first four bytes.
pub fn stamp_table_checksum(region: &mut Vec<u8>)
    requires
        old(region)@.len() >= 4,
    ensures
        final(region)@ == stamped_table(old(region)@),
{
    let end = region.len();
    let (sum, inverse) = checksum(&region.as_slice()[4..end]);
    assert(old(region)@.subrange(4, end as int) =~= old(region)@.skip(4));
    put_be16(region, 0, sum);
    put_be16(region, 2, inverse);
    assert(final(region)@ =~= stamped_table(old(region)@));
}

/// A big-endian pair reads back as the value it was written from.
proof fn lemma_be16_bytes(v: u16)
    ensures
        be16(be16_bytes(v as int), 0) == v,
{
}

/// Stamping a directory leaves everything before its checksum pair alone.
pub proof fn lemma_stamped_directory_prefix(d: Seq<u8>)
    requires
        d.len() == BLOCK,
    ensures
        stamped_directory(d).len() == BLOCK,
        forall|x: int| 0 <= x < BLOCK - 4 ==> #[trigger] stamped_directory(d)[x] == d[x],
{
}

/// A stamped directory checks: stamping is what makes a directory valid.
pub proof fn lemma_stamped_directory_is_valid(d: Seq<u8>)
    requires
        d.len() == BLOCK,
    ensures
        directory_valid(stamped_directory(d)),
{
    let s = stamped_directory(d);
    let (sum, inverse) = checksum_spec(d.take(BLOCK - 4));
    assert(s.take(BLOCK - 4) =~= d.take(BLOCK - 4));
    lemma_be16_bytes(sum);
    lemma_be16_bytes(inverse);
    assert(be16(s, BLOCK - 4) == be16(be16_bytes(sum as int), 0));
    assert(be16(s, BLOCK - 2) == be16(be16_bytes(inverse as int), 0));
}

/// A stamped table checks: stamping is what makes a table valid.
pub proof fn lemma_stamped_table_is_valid(t: Seq<u8>)
    requires
        t.len() == BLOCK,
    ensures
        table_valid(stamped_table(t)),
{
    let s = stamped_table(t);
    let (sum, inverse) = checksum_spec(t.skip(4));
    assert(s.skip(4) =~= t.skip(4));
    lemma_be16_bytes(sum);
    lemma_be16_bytes(inverse);
    assert(be16(s, 0) == be16(be16_bytes(sum as int), 0));
    assert(be16(s, 2) == be16(be16_bytes(inverse as int), 0));
}

/// Block `i` of an image.
pub open spec fn block_of(image: Seq<u8>, i: int) -> Seq<u8> {
    image.subrange(i * BLOCK, (i + 1) * BLOCK)
}

/// Whether these bytes look like a GameCube card: the shape, and then a directory or its mirror
/// that checksums.
pub open spec fn looks_like_card(image: Seq<u8>) -> bool {
    card_shaped(image.len() as int) && (directory_valid(block_of(image, DIR_BLOCK as int))
        || directory_valid(block_of(image, DIR_MIRROR_BLOCK as int)))
}

/// The console formats cards of 64, 128, 256, 512, 1024 and 2048 blocks of 8 KiB, and every one of
/// them is accepted: an image is card-shaped just when it is 512 KiB, 1 MiB, 2 MiB, 4 MiB, 8 MiB or
/// 16 MiB long, so such an image whose directory or its mirror checksums is recognised as a card,
/// and `MemoryCard::parse` reads it rather than refusing its length.
pub proof fn lemma_every_card_size_is_accepted(image: Seq<u8>)
    ensures
        card_shaped(image.len() as int) <==> (image.len() == 524288 || image.len() == 1048576
            || image.len() == 2097152 || image.len() == 4194304 || image.len() == 8388608
            || image.len() == 16777216),
        looks_like_card(image) <==> card_shaped(image.len() as int) && (directory_valid(
            block_of(image, 1),
        ) || directory_valid(block_of(image, 2))),
{
    let n = image.len() as int;
    if n % 8192 == 0 {
        assert(n == (n / 8192) * 8192);
    }
}

/// Whether these bytes look like a GameCube card.
///
/// There is no magic, so this checks the shape and then the directory's checksum, which is what
/// actually distinguishes a formatted card from a file that happens to be the right length.
pub fn detect(bytes: &[u8]) -> (r: bool)
    ensures
        r == looks_like_card(bytes@),
{
    if !is_card_shaped(bytes.len()) {
        return false;
    }
    directory_is_valid(&bytes[DIR_BLOCK * BLOCK..(DIR_BLOCK + 1) * BLOCK]) || directory_is_valid(
        &bytes[DIR_MIRROR_BLOCK * BLOCK..(DIR_MIRROR_BLOCK + 1) * BLOCK],
    )
}

/// Whether counter `b` was written after counter `a`: counters wrap, so "higher" is the one the
/// other is not immediately behind.
pub open spec fn counted_after(a: u16, b: u16) -> bool {
    vstd::wrapping::u16_specs::wrapping_sub(b, a) < 0x8000 && b != a
}

/// Which of a mirrored pair the console trusts: `Some(false)` for the primary, `Some(true)` for
/// the mirror, `None` when neither checksums.
pub open spec fn mirror_choice(primary_valid: bool, mirror_valid: bool, a: u16, b: u16) -> Option<bool> {
    if primary_valid && mirror_valid {
        Some(counted_after(a, b))
    } else if primary_valid {
        Some(false)
    } else if mirror_valid {
        Some(true)
    } else {
        None
    }
}

/// Picks whichever of a mirrored pair the console would trust.
///
/// Both carry an update counter, and the higher one is the more recently written. A pair where
/// only one checksums is decided by that instead.
fn pick_mirror(primary_valid: bool, mirror_valid: bool, a: u16, b: u16) -> (r: Option<bool>)
    ensures
        r == mirror_choice(primary_valid, mirror_valid, a, b),
{
    match (primary_valid, mirror_valid) {
        (true, true) => Some(b.wrapping_sub(a) < 0x8000 && b != a),
        (true, false) => Some(false),
        (false, true) => Some(true),
        (false, false) => None,
    }
}

/// Which directory the console reads, if either checksums.
pub open spec fn directory_choice(image: Seq<u8>) -> Option<bool> {
    let p = block_of(image, DIR_BLOCK as int);
    let m = block_of(image, DIR_MIRROR_BLOCK as int);
    mirror_choice(directory_valid(p), directory_valid(m), be16(p, BLOCK - 6) as u16, be16(m, BLOCK - 6) as u16)
}

/// Which allocation table the console reads, if either checksums.
pub open spec fn table_choice(image: Seq<u8>) -> Option<bool> {
    let p = block_of(image, BAT_BLOCK as int);
    let m = block_of(image, BAT_MIRROR_BLOCK as int);
    mirror_choice(table_valid(p), table_valid(m), be16(p, 4) as u16, be16(m, 4) as u16)
}

/// The directory the console reads.
pub open spec fn chosen_directory(image: Seq<u8>) -> Seq<u8> {
    if directory_choice(image) == Some(true) {
        block_of(image, DIR_MIRROR_BLOCK as int)
    } else {
        block_of(image, DIR_BLOCK as int)
    }
}

/// The allocation table the console reads.
pub open spec fn chosen_table(image: Seq<u8>) -> Seq<u8> {
    if table_choice(image) == Some(true) {
        block_of(image, BAT_MIRROR_BLOCK as int)
    } else {
        block_of(image, BAT_BLOCK as int)
    }
}

/// Which directory a card is read through: the mirror (block 2) exactly when it checksums and
/// either the primary (block 1) does not or the mirror was counted after it, and the primary
/// otherwise. A stale copy loses to the one counted higher, and a corrupt primary falls back to
/// its mirror. Every save a card lists is an entry of that directory.
pub proof fn lemma_the_directory_read_is_the_one_counted_higher(image: Seq<u8>)
    requires
        directory_choice(image) is Some,
    ensures
        ({
            let p = block_of(image, DIR_BLOCK as int);
            let m = block_of(image, DIR_MIRROR_BLOCK as int);
            let a = be16(p, BLOCK - 6) as u16;
            let b = be16(m, BLOCK - 6) as u16;
            let mirror = directory_valid(m) && (!directory_valid(p) || (b != a
                && vstd::wrapping::u16_specs::wrapping_sub(b, a) < 0x8000));
            &&& chosen_directory(image) == (if mirror { m } else { p })
            &&& forall|k: int|
                0 <= k < saves_upto(image, MAX_ENTRIES as int).len() ==> {
                    let s = #[trigger] saves_upto(image, MAX_ENTRIES as int)[k];
                    &&& 0 <= s.slot < MAX_ENTRIES
                    &&& s.dirent == entry_at(if mirror { m } else { p }, s.slot)
                }
        }),
{
    lemma_saves_come_from_entries(image, MAX_ENTRIES as int);
}

/// Each save of the first `n` entries comes from one of them.
proof fn lemma_saves_come_from_entries(image: Seq<u8>, n: int)
    ensures
        forall|k: int|
            0 <= k < saves_upto(image, n).len() ==> {
                let s = #[trigger] saves_upto(image, n)[k];
                &&& 0 <= s.slot < n
                &&& s.dirent == entry_at(chosen_directory(image), s.slot)
            },
    decreases n,
{
    if n > 0 {
        lemma_saves_come_from_entries(image, n - 1);
        let prev = saves_upto(image, n - 1);
        let now = saves_upto(image, n);
        assert forall|k: int| 0 <= k < now.len() implies {
            let s = #[trigger] now[k];
            &&& 0 <= s.slot < n
            &&& s.dirent == entry_at(chosen_directory(image), s.slot)
        } by {
            if k < prev.len() {
                assert(now[k] == prev[k]);
            }
        }
    }
}

/// The allocation table as links: for every block from the fifth on, the block its save carries
/// on in. The table describes blocks from [`RESERVED_BLOCKS`] onward, so block 5 is its first
/// entry.
pub open spec fn table_links(table: Seq<u8>, blocks: int) -> Seq<u16> {
    Seq::new(
        blocks as nat,
        |b: int|
            if b < RESERVED_BLOCKS {
                0u16
            } else {
                be16(table, MAP_OFFSET + (b - RESERVED_BLOCKS) * 2) as u16
            },
    )
}

/// One save on a card.
#[derive(Debug, Clone, PartialEq, Eq)]
pub struct Save {
    /// The directory index it occupied.
    pub slot: usize,
    /// The four-character game code.
    pub game_code: String,
    /// The two-character maker code.
    ///
    /// A save is opened by game code plus maker code plus filename, so neither code identifies a
    /// game on its own.
    pub maker_code: String,
    /// The save's filename.
    pub filename: String,
    /// The directory entry's 64 bytes, verbatim and opaque.
    ///
    /// Empty when a save was built by hand rather than read off a card.
    pub dirent: Vec<u8>,
    /// The save's bytes: every block it occupies, in chain order.
    pub data: Vec<u8>,
}

/// What a save holds, as values.
pub struct SaveView {
    pub slot: int,
    pub game_code: Seq<char>,
    pub maker_code: Seq<char>,
    pub filename: Seq<char>,
    pub dirent: Seq<u8>,
    pub data: Seq<u8>,
}

impl View for Save {
    type V = SaveView;

    open spec fn view(&self) -> SaveView {
        SaveView {
            slot: self.slot as int,
            game_code: self.game_code@,
            maker_code: self.maker_code@,
            filename: self.filename@,
            dirent: self.dirent@,
            data: self.data@,
        }
    }
}

/// The values of a run of saves.
pub open spec fn save_views(saves: Seq<Save>) -> Seq<SaveView> {
    Seq::new(saves.len(), |i: int| saves[i]@)
}

/// Directory entry `slot`.
pub open spec fn entry_at(directory: Seq<u8>, slot: int) -> Seq<u8> {
    directory.subrange(slot * ENTRY_LEN, (slot + 1) * ENTRY_LEN)
}

/// Whether an entry is free: its game code is all ones, which is what an erased entry is.
pub open spec fn entry_free(e: Seq<u8>) -> bool {
    e[0] == 0xFF && e[1] == 0xFF && e[2] == 0xFF && e[3] == 0xFF
}

/// Whether an entry is one the card can read: a free one always is, and a used one when its
/// chain is a readable save of the length it states.
pub open spec fn entry_readable(image: Seq<u8>, slot: int) -> bool {
    let e = entry_at(chosen_directory(image), slot);
    let blocks = image.len() as int / (BLOCK as int);
    !entry_free(e) ==> chain_ends(
        table_links(chosen_table(image), blocks),
        be16(e, 0x36),
        be16(e, 0x38) as nat,
        RESERVED_BLOCKS as int,
        blocks,
        CHAIN_END,
    )
}

/// Whether every entry of the directory the console reads can be read.
pub open spec fn directory_readable(image: Seq<u8>) -> bool {
    forall|slot: int| 0 <= slot < MAX_ENTRIES ==> entry_readable(image, slot)
}

/// The save a used entry describes.
pub open spec fn save_at(image: Seq<u8>, slot: int) -> SaveView {
    let e = entry_at(chosen_directory(image), slot);
    let blocks = image.len() as int / (BLOCK as int);
    SaveView {
        slot,
        game_code: ascii_text(graphic_only(e.subrange(0, 4))),
        maker_code: ascii_text(graphic_only(e.subrange(4, 6))),
        filename: lossy_utf8(until_nul_spec(e.subrange(8, 40))),
        dirent: e,
        data: gather_blocks(
            image,
            chain_seq(table_links(chosen_table(image), blocks), be16(e, 0x36), be16(e, 0x38) as nat),
            BLOCK as int,
        ),
    }
}

/// The saves of the first `n` entries, in directory order.
pub open spec fn saves_upto(image: Seq<u8>, n: int) -> Seq<SaveView>
    decreases n,
{
    if n <= 0 {
        Seq::empty()
    } else if !entry_free(entry_at(chosen_directory(image), n - 1)) {
        saves_upto(image, n - 1).push(save_at(image, n - 1))
    } else {
        saves_upto(image, n - 1)
    }
}

/// A card image that could not be read, or could not be built.
#[derive(Debug, Clone, PartialEq, Eq)]
pub enum Error {
    /// The image is not a whole number of blocks, or not a size the console formats.
    WrongLength(usize),
    /// Neither the directory nor its mirror checksums, so the card cannot be read.
    NotAMemoryCard,
    /// The image is structurally broken in a way that is not recoverable by guessing.
    Corrupt(String),
    /// The saves do not fit on a card.
    Full {
        /// How many blocks they need.
        needed: usize,
        /// How many blocks are free for saves.
        available: usize,
    },
    /// More saves than the directory has entries.
    TooManySaves {
        /// How many were offered.
        given: usize,
        /// How many a card holds.
        available: usize,
    },
}

/// A parsed memory card image.
#[derive(Debug)]
pub struct MemoryCard {
    image: Vec<u8>,
    saves: Vec<Save>,
    blocks: usize,
}

/// What a parsed card holds, as values.
pub struct MemoryCardView {
    pub image: Seq<u8>,
    pub saves: Seq<SaveView>,
    pub blocks: int,
}

impl View for MemoryCard {
    type V = MemoryCardView;

    closed spec fn view(&self) -> MemoryCardView {
        MemoryCardView { image: self.image@, saves: save_views(self.saves@), blocks: self.blocks as int }
    }
}

impl Clone for MemoryCard {
    fn clone(&self) -> (r: Self)
        ensures
            r@.image == self@.image,
            r@.blocks == self@.blocks,
    {
        proof {
            use_type_invariant(self);
        }
        MemoryCard { image: copy_of(self.image.as_slice()), saves: self.saves.clone(), blocks: self.blocks }
    }
}

/// The allocation table as links.
fn read_links(table: &[u8], blocks: usize) -> (links: Vec<u16>)
    requires
        table@.len() == BLOCK,
        blocks <= 2048,
    ensures
        links@ == table_links(table@, blocks as int),
{
    let mut links: Vec<u16> = Vec::new();
    let mut b: usize = 0;
    while b < blocks
        invariant
            b <= blocks,
            blocks <= 2048,
            table@.len() == BLOCK,
            links@.len() == b,
            forall|k: int| 0 <= k < b ==> links@[k] == table_links(table@, blocks as int)[k],
        decreases blocks - b,
    {
        if b < RESERVED_BLOCKS {
            links.push(0);
        } else {
            links.push(read_be16(table, MAP_OFFSET + (b - RESERVED_BLOCKS) * 2));
        }
        b = b + 1;
    }
    assert(links@ =~= table_links(table@, blocks as int));
    links
}

/// The saves of a card whose directory and table have been chosen.
fn read_saves(bytes: &[u8], directory: &[u8], table: &[u8], blocks: usize) -> (r: Option<Vec<Save>>)
    requires
        card_shaped(bytes@.len() as int),
        blocks == bytes@.len() as int / (BLOCK as int),
        directory_choice(bytes@) is Some,
        table_choice(bytes@) is Some,
        directory@ == chosen_directory(bytes@),
        table@ == chosen_table(bytes@),
    ensures
        r is Some <==> directory_readable(bytes@),
        r matches Some(saves) ==> save_views(saves@) == saves_upto(bytes@, MAX_ENTRIES as int),
{
    let links = read_links(table, blocks);
    let mut saves: Vec<Save> = Vec::new();
    let mut slot: usize = 0;
    while slot < MAX_ENTRIES
        invariant
            slot <= MAX_ENTRIES,
            card_shaped(bytes@.len() as int),
            blocks == bytes@.len() as int / (BLOCK as int),
            directory@ == chosen_directory(bytes@),
            table@ == chosen_table(bytes@),
            directory@.len() == BLOCK,
            links@ == table_links(table@, blocks as int),
            forall|s: int| 0 <= s < slot ==> entry_readable(bytes@, s),
            save_views(saves@) == saves_upto(bytes@, slot as int),
        decreases MAX_ENTRIES - slot,
    {
        let entry = &directory[slot * ENTRY_LEN..(slot + 1) * ENTRY_LEN];
        assert(entry@ == entry_at(directory@, slot as int));
        // A free entry is written as all-ones in the game code, which is what an erased entry is.
        if entry[0] == 0xFF && entry[1] == 0xFF && entry[2] == 0xFF && entry[3] == 0xFF {
            slot = slot + 1;
            continue;
        }
        let first = read_be16(entry, 0x36) as usize;
        let count = read_be16(entry, 0x38) as usize;
        let chain = match follow_counted(links.as_slice(), first, count, RESERVED_BLOCKS, blocks, CHAIN_END) {
            Some(chain) => chain,
            None => {
                proof {
                    assert(!entry_readable(bytes@, slot as int));
                }
                return None;
            },
        };
        proof {
            lemma_lists_chain(chain@, links@, first as int);
            assert forall|k: int| 0 <= k < chain@.len() implies (chain@[k] + 1) * BLOCK
                <= bytes@.len() by {
                let c = link(links@, first as int, k as nat);
                assert(RESERVED_BLOCKS <= c < blocks);
                assert((c + 1) * BLOCK <= blocks * BLOCK) by (nonlinear_arith)
                    requires
                        c + 1 <= blocks,
                ;
                assert(blocks * BLOCK == bytes@.len());
            }
        }
        let data = gather(bytes, chain.as_slice(), BLOCK);
        let filename = from_utf8_lossy(until_nul(&entry[8..40]));
        let game_code = graphic_ascii(&entry[0..4]);
        let maker_code = graphic_ascii(&entry[4..6]);
        let save = Save { slot, game_code, maker_code, filename, dirent: copy_of(entry), data };
        proof {
            assert(entry@.subrange(8, 40) =~= entry_at(chosen_directory(bytes@), slot as int).subrange(
                8,
                40,
            ));
            assert(entry@.subrange(0, 4) =~= entry_at(chosen_directory(bytes@), slot as int).subrange(
                0,
                4,
            ));
            assert(entry@.subrange(4, 6) =~= entry_at(chosen_directory(bytes@), slot as int).subrange(
                4,
                6,
            ));
            assert(save@ == save_at(bytes@, slot as int));
        }
        saves.push(save);
        proof {
            assert(save_views(saves@) =~= saves_upto(bytes@, slot as int + 1));
        }
        slot = slot + 1;
    }
    Some(saves)
}

impl MemoryCard {
    /// The image is always a whole card in a size the console formats, and knows its size.
    #[verifier::type_invariant]
    spec fn whole(self) -> bool {
        &&& card_shaped(self.image@.len() as int)
        &&& self.blocks == self.image@.len() as int / (BLOCK as int)
    }

    /// Reads a card image.
    pub fn parse(bytes: &[u8]) -> (r: Result<MemoryCard, Error>)
        ensures
            r is Ok <==> card_shaped(bytes@.len() as int) && directory_choice(bytes@) is Some
                && table_choice(bytes@) is Some && directory_readable(bytes@),
            r matches Err(Error::WrongLength(_)) <==> !card_shaped(bytes@.len() as int),
            r matches Err(Error::WrongLength(n)) ==> n == bytes@.len(),
            r matches Err(Error::NotAMemoryCard) <==> card_shaped(bytes@.len() as int)
                && directory_choice(bytes@) is None,
            r matches Err(Error::Corrupt(_)) <==> card_shaped(bytes@.len() as int)
                && directory_choice(bytes@) is Some && (table_choice(bytes@) is None
                || !directory_readable(bytes@)),
            r matches Ok(card) ==> card@.image == bytes@ && card@.blocks == bytes@.len() as int
                / (BLOCK as int) && card@.saves == saves_upto(bytes@, MAX_ENTRIES as int),
    {
        let blocks = bytes.len() / BLOCK;
        if !is_card_shaped(bytes.len()) {
            return Err(Error::WrongLength(bytes.len()));
        }
        assert(blocks * BLOCK == bytes@.len());
        // The directory's counter sits four bytes before its checksum; the table's is near its
        // front.
        let dir = &bytes[DIR_BLOCK * BLOCK..(DIR_BLOCK + 1) * BLOCK];
        let dir_mirror = &bytes[DIR_MIRROR_BLOCK * BLOCK..(DIR_MIRROR_BLOCK + 1) * BLOCK];
        let use_mirror = match pick_mirror(
            directory_is_valid(dir),
            directory_is_valid(dir_mirror),
            read_be16(dir, BLOCK - 6),
            read_be16(dir_mirror, BLOCK - 6),
        ) {
            Some(m) => m,
            None => {
                return Err(Error::NotAMemoryCard);
            },
        };
        let directory = if use_mirror {
            dir_mirror
        } else {
            dir
        };
        let bat = &bytes[BAT_BLOCK * BLOCK..(BAT_BLOCK + 1) * BLOCK];
        let bat_mirror = &bytes[BAT_MIRROR_BLOCK * BLOCK..(BAT_MIRROR_BLOCK + 1) * BLOCK];
        let table_mirror = match pick_mirror(
            table_is_valid(bat),
            table_is_valid(bat_mirror),
            read_be16(bat, 4),
            read_be16(bat_mirror, 4),
        ) {
            Some(m) => m,
            None => {
                return Err(
                    Error::Corrupt("neither the allocation table nor its mirror checksums".to_owned()),
                );
            },
        };
        let table = if table_mirror {
            bat_mirror
        } else {
            bat
        };
        match read_saves(bytes, directory, table, blocks) {
            Some(saves) => Ok(MemoryCard { image: copy_of(bytes), saves, blocks }),
            None => Err(Error::Corrupt("a save's block chain does not match its entry".to_owned())),
        }
    }

    /// Every save on the card, in directory order.
    pub fn saves(&self) -> (r: &[Save])
        ensures
            save_views(r@) == self@.saves,
    {
        self.saves.as_slice()
    }

    /// Takes the saves, for a caller that is going to rebuild rather than read on.
    pub fn into_saves(self) -> (r: Vec<Save>)
        ensures
            save_views(r@) == self@.saves,
    {
        self.saves
    }

    /// The whole image.
    pub fn image(&self) -> (r: &[u8])
        ensures
            r@ == self@.image,
    {
        self.image.as_slice()
    }

    /// How many blocks the card has in total, structure included.
    pub fn blocks(&self) -> (r: usize)
        ensures
            r == self@.blocks,
    {
        self.blocks
    }

    /// The card's **data** capacity in bytes: what saves can occupy.
    ///
    /// The card minus the five blocks the header, directory and table take, never the length of
    /// an image of it.
    pub fn capacity(&self) -> (r: usize)
        ensures
            r == (self@.blocks - RESERVED_BLOCKS) * BLOCK,
    {
        proof {
            use_type_invariant(self);
        }
        (self.blocks - RESERVED_BLOCKS) * BLOCK
    }

    /// The header block, all 8 KiB of it.
    ///
    /// It carries the card's flash serial, which is what a Phantasy Star Online save is signed
    /// against, so it is worth keeping across a split.
    pub fn header_block(&self) -> (r: &[u8])
        ensures
            r@ == self@.image.take(BLOCK as int),
    {
        proof {
            use_type_invariant(self);
        }
        &self.image[0..BLOCK]
    }
}

} // verus!
