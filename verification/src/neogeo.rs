//! Neo Geo memory card images.
//!
//! A card is 64-byte blocks. Block 0 is the header, the next blocks are the directory, then two
//! copies of the allocation table, and everything after that is save data. How many blocks each
//! region takes is worked out from the card's own size word rather than fixed, and checked against
//! the table before anything is read: see [`Geometry`].
//!
//! The allocation table is a chain: one byte per block, and the byte is the *next* block's number.
//! Free and reserved are 0 and 2, the end of a chain is 1, and anything else is where the save
//! carries on. The three never collide with a real block number, because the first block a save
//! can occupy is 5 on the smallest card and 13 on the largest seen.
//!
//! The header's size word is **twice** the card's length in bytes: the card is 8-bit and the bus
//! is 16, so what it records is how much of the 68000's address space it answers to. It is halved
//! once on the way in and doubled once on the way out, and nowhere else.
//!
//! A bare card is the card and nothing else. The MiSTer NeoGeo core writes 64 KiB of cabinet
//! backup RAM and then the card, as 16-bit words whose high byte is the card's **even** address
//! and whose low byte its **odd** one; swapping the two bytes of every word turns it back into the
//! address space the 68000 sees.

pub mod writer;

use vstd::prelude::*;
use crate::bytes::{be16, copy_of, read_be16};
use crate::chain::{chain_ends, chain_seq, follow_to_end, gather, gather_blocks, lemma_lists_chain, lemma_one_length, link};
use crate::text::{all_ascii, ascii_string, ascii_text, trim_end, trim_end_chars, until_nul, until_nul_spec};

verus! {

/// One block: the unit the allocation table counts and a save occupies.
pub const BLOCK: usize = 64;

/// A directory entry's length.
pub const ENTRY_LEN: usize = 4;

/// A directory entry's sub-number when the slot holds nothing.
pub const FREE_ENTRY: u8 = 0xFF;

/// How many saves one game may keep.
pub const MAX_SUB: u8 = 16;

/// Where the card states its size, as a big-endian word: twice the card's length in bytes.
pub const SIZE_OFFSET: usize = 0x0A;

/// Where the two allocation table checksums sit, FAT 1 then FAT 2.
pub const CHECKSUM_OFFSET: usize = 0x0D;

/// Where the card holder's username sits, 16 bytes.
pub const USERNAME_OFFSET: usize = 0x10;

/// Where the signature sits.
pub const MAGIC_OFFSET: usize = 0x20;

/// Where the card states its region.
pub const REGION_OFFSET: usize = 0x30;

/// How many bytes of cabinet backup RAM a MiSTer save carries in front of the card.
pub const MISTER_BACKUP_RAM: usize = 0x10000;

/// How much of a MiSTer save the card region takes, whatever size card is in it.
pub const MISTER_CARD_REGION: usize = 0x2000;

/// An allocation table entry: nothing is using this block.
pub const FAT_FREE: u8 = 0x00;

/// An allocation table entry: this is the last block of its save.
pub const FAT_CHAIN_END: u8 = 0x01;

/// An allocation table entry: the header, the directory or a table is here.
pub const FAT_RESERVED: u8 = 0x02;

/// Which market the card was formatted for.
#[derive(Debug, Clone, Copy, PartialEq, Eq, Structural)]
pub enum Region {
    /// Japan.
    Japan,
    /// The USA.
    Usa,
    /// Europe, and Asia outside Japan.
    Europe,
    /// A byte that names none of the three, kept as it was found.
    Unknown(u8),
}

/// The region a byte names.
pub open spec fn region_of(byte: u8) -> Region {
    if byte == 0 {
        Region::Japan
    } else if byte == 1 {
        Region::Usa
    } else if byte == 2 {
        Region::Europe
    } else {
        Region::Unknown(byte)
    }
}

/// The byte a region is written as.
pub open spec fn region_byte(region: Region) -> u8 {
    match region {
        Region::Japan => 0,
        Region::Usa => 1,
        Region::Europe => 2,
        Region::Unknown(byte) => byte,
    }
}

impl Region {
    /// The region a byte names.
    pub fn from_byte(byte: u8) -> (r: Self)
        ensures
            r == region_of(byte),
    {
        match byte {
            0 => Region::Japan,
            1 => Region::Usa,
            2 => Region::Europe,
            other => Region::Unknown(other),
        }
    }

    /// The byte a region is written as.
    pub fn as_byte(self) -> (r: u8)
        ensures
            r == region_byte(self),
    {
        match self {
            Region::Japan => 0,
            Region::Usa => 1,
            Region::Europe => 2,
            Region::Unknown(byte) => byte,
        }
    }
}

/// Every byte is kept: reading a region and writing it back gives the byte that was read.
pub proof fn lemma_region_byte_round_trips(byte: u8)
    ensures
        region_byte(region_of(byte)) == byte,
{
}

/// A named region comes back from the byte it is written as.
pub proof fn lemma_named_region_round_trips(region: Region)
    requires
        !(region is Unknown) || region->Unknown_0 > 2,
    ensures
        region_of(region_byte(region)) == region,
{
}

/// How a card image arrived.
#[derive(Debug, Clone, Copy, PartialEq, Eq, Structural)]
pub enum Container {
    /// The card and nothing else, in the byte order the 68000 sees.
    Bare,
    /// A MiSTer NeoGeo core save: 64 KiB of cabinet backup RAM, then the card with the two bytes
    /// of every 16-bit word swapped.
    MiSter,
}

/// Where each region of a card sits, worked out from the card's size.
///
/// The directory holds one entry per block and the table one byte per block, which together fix
/// how much of the card is structure. Parsing checks the result against the table's own reserved
/// marks and refuses a card the two disagree about.
#[derive(Debug, Clone, Copy, PartialEq, Eq, Structural)]
pub struct Geometry {
    /// The card's size in bytes.
    pub size: usize,
    /// How many blocks it holds in total.
    pub blocks: usize,
    /// How many directory entries there are.
    pub entries: usize,
    /// The first block of the directory.
    pub directory_block: usize,
    /// The first block of allocation table 1.
    pub fat1_block: usize,
    /// The first block of allocation table 2.
    pub fat2_block: usize,
    /// The first block a save can occupy.
    pub first_data_block: usize,
}

/// How many blocks it takes to hold `x` bytes.
pub open spec fn blocks_for(x: int) -> int {
    (x + 63) / 64
}

/// The layout of a card of this many bytes, or `None` for a size cards do not come in: 2 KiB to
/// 16 KiB in 2 KiB steps.
pub open spec fn geometry_of(size: int) -> Option<Geometry> {
    if size % 2048 != 0 || size < 2048 || size > 16384 {
        None
    } else {
        let blocks = size / 64;
        let directory_blocks = blocks_for(blocks * 4);
        let fat_blocks = blocks_for(blocks);
        let fat1 = 1 + directory_blocks;
        let fat2 = fat1 + fat_blocks;
        Some(
            Geometry {
                size: size as usize,
                blocks: blocks as usize,
                entries: blocks as usize,
                directory_block: 1,
                fat1_block: fat1 as usize,
                fat2_block: fat2 as usize,
                first_data_block: (fat2 + fat_blocks) as usize,
            },
        )
    }
}

/// The layout a size word describes: the word is an address span, so it is halved.
pub open spec fn geometry_of_word(word: u16) -> Option<Geometry> {
    geometry_of(word as int / 2)
}

/// What every card's layout keeps to: the regions in order, inside the card, and the data after
/// the second table.
pub proof fn lemma_geometry_fits(size: int)
    requires
        geometry_of(size) is Some,
    ensures
        ({
            let g = geometry_of(size)->0;
            &&& g.size == size && g.blocks * 64 == size && g.entries == g.blocks
            &&& 32 <= g.blocks <= 256
            &&& g.directory_block == 1
            &&& (g.directory_block * 64 + g.entries * 4) <= g.fat1_block * 64
            &&& g.fat1_block < g.fat2_block < g.first_data_block <= g.blocks
            &&& g.fat1_block * 64 + g.blocks <= g.fat2_block * 64
            &&& g.first_data_block >= 5
            &&& g.size * 2 <= u16::MAX
        }),
{
    let k = size / 2048;
    assert(size == k * 2048);
    assert(1 <= k <= 8);
}

impl Geometry {
    /// The layout of a card of this many **bytes**, or `None` for a size cards do not come in.
    ///
    /// Not the header's size word, which is twice this; `from_size_word` takes that.
    pub fn of(size: usize) -> (r: Option<Self>)
        ensures
            r == geometry_of(size as int),
    {
        if size % 2048 != 0 || size < 2048 || size > 16384 {
            return None;
        }
        let blocks = size / BLOCK;
        // One directory entry per block, whether or not a card could ever fill them all.
        let entries = blocks;
        let directory_blocks = (entries * ENTRY_LEN + 63) / BLOCK;
        let fat_blocks = (blocks + 63) / BLOCK;
        let directory_block: usize = 1;
        let fat1_block = directory_block + directory_blocks;
        let fat2_block = fat1_block + fat_blocks;
        Some(
            Geometry {
                size,
                blocks,
                entries,
                directory_block,
                fat1_block,
                fat2_block,
                first_data_block: fat2_block + fat_blocks,
            },
        )
    }

    /// The layout a card's own size word describes.
    ///
    /// The word is an address span, so it is halved to get the card's length in bytes.
    pub fn from_size_word(word: u16) -> (r: Option<Self>)
        ensures
            r == geometry_of_word(word),
    {
        Geometry::of(word as usize / 2)
    }

    /// The size word a card of this geometry states: twice its length in bytes.
    pub fn size_word(self) -> (r: u16)
        requires
            self.size * 2 <= u16::MAX,
        ensures
            r == self.size * 2,
    {
        (self.size * 2) as u16
    }

    /// How many bytes each allocation table runs to, which is one per block.
    pub fn fat_len(self) -> (r: usize)
        ensures
            r == self.blocks,
    {
        self.blocks
    }

    /// How many bytes saves can occupy: the card minus the blocks structure takes.
    pub fn data_capacity(self) -> (r: usize)
        requires
            self.first_data_block <= self.blocks,
            (self.blocks - self.first_data_block) * BLOCK <= usize::MAX,
        ensures
            r == (self.blocks - self.first_data_block) * BLOCK,
    {
        (self.blocks - self.first_data_block) * BLOCK
    }

    /// The layout of the card whose saves can occupy this many bytes.
    ///
    /// The inverse of `data_capacity`, for a caller that recorded the usable capacity and needs
    /// the card back. `None` when no card has one.
    pub fn for_data_capacity(bytes: usize) -> (r: Option<Self>)
        ensures
            r matches Some(g) ==> geometry_of(g.size as int) == Some(g) && (g.blocks - g.first_data_block)
                * BLOCK == bytes && forall|k: int|
                1 <= k < g.size / 2048 ==> #[trigger] data_capacity_of(k * 2048) != bytes,
            r is None ==> forall|k: int| 1 <= k <= 8 ==> #[trigger] data_capacity_of(k * 2048) != bytes,
    {
        let mut k: usize = 1;
        while k <= 8
            invariant
                1 <= k <= 9,
                forall|j: int| 1 <= j < k ==> #[trigger] data_capacity_of(j * 2048) != bytes,
            decreases 9 - k,
        {
            proof {
                lemma_geometry_fits(k * 2048);
            }
            let g = Geometry::of(k * 2048);
            match g {
                Some(g) => {
                    if g.data_capacity() == bytes {
                        assert(g.size / 2048 == k);
                        return Some(g);
                    }
                },
                None => {},
            }
            k = k + 1;
        }
        None
    }
}

/// How many bytes saves can occupy on a card of this size.
pub open spec fn data_capacity_of(size: int) -> int {
    let g = geometry_of(size)->0;
    (g.blocks - g.first_data_block) * BLOCK
}

/// Reading a size word back from the word a layout states gives that layout: the word
/// round-trips.
pub proof fn lemma_size_word_round_trips(size: int)
    requires
        geometry_of(size) is Some,
    ensures
        geometry_of_word((geometry_of(size)->0.size * 2) as u16) == geometry_of(size),
{
    lemma_geometry_fits(size);
}

/// The 8-bit sum of the first `n` bytes.
pub open spec fn byte_sum(b: Seq<u8>, n: int) -> int
    decreases n,
{
    if n <= 0 {
        0
    } else {
        byte_sum(b, n - 1) + b[n - 1]
    }
}

/// The 8-bit sum an allocation table is checked by.
pub fn fat_checksum(fat: &[u8]) -> (r: u8)
    ensures
        r == byte_sum(fat@, fat@.len() as int) % 256,
{
    let mut sum: u8 = 0;
    let mut i: usize = 0;
    while i < fat.len()
        invariant
            i <= fat@.len(),
            sum == byte_sum(fat@, i as int) % 256,
        decreases fat@.len() - i,
    {
        proof {
            let s = byte_sum(fat@, i as int);
            vstd::arithmetic::div_mod::lemma_add_mod_noop_right(fat@[i as int] as int, s, 256);
            assert((sum + fat@[i as int]) % 256 == if sum + fat@[i as int] >= 256 {
                sum + fat@[i as int] - 256
            } else {
                sum + fat@[i as int]
            });
        }
        sum = sum.wrapping_add(fat[i]);
        i = i + 1;
    }
    sum
}

/// The signature's characters, one every other byte from the magic offset: `NEO-GEO` and 0x80.
pub open spec fn magic_byte(i: int) -> u8 {
    if i == 0 {
        0x4E
    } else if i == 1 {
        0x45
    } else if i == 2 {
        0x4F
    } else if i == 3 {
        0x2D
    } else if i == 4 {
        0x47
    } else if i == 5 {
        0x45
    } else if i == 6 {
        0x4F
    } else {
        0x80
    }
}

/// Whether the signature is where it should be.
pub open spec fn has_magic_spec(card: Seq<u8>) -> bool {
    card.len() > MAGIC_OFFSET + 15 && forall|i: int|
        0 <= i < 8 ==> #[trigger] card[MAGIC_OFFSET + i * 2] == magic_byte(i)
}

/// The signature's `i`-th character.
pub(crate) fn magic_at(i: usize) -> (r: u8)
    requires
        i < 8,
    ensures
        r == magic_byte(i as int),
{
    match i {
        0 => 0x4E,
        1 => 0x45,
        2 => 0x4F,
        3 => 0x2D,
        4 => 0x47,
        5 => 0x45,
        6 => 0x4F,
        _ => 0x80,
    }
}

/// Whether the signature is where it should be.
fn has_magic(card: &[u8]) -> (r: bool)
    ensures
        r == has_magic_spec(card@),
{
    if card.len() <= MAGIC_OFFSET + 15 {
        return false;
    }
    let mut i: usize = 0;
    while i < 8
        invariant
            i <= 8,
            card@.len() > MAGIC_OFFSET + 15,
            forall|k: int| 0 <= k < i ==> #[trigger] card@[MAGIC_OFFSET + k * 2] == magic_byte(k),
        decreases 8 - i,
    {
        if card[MAGIC_OFFSET + i * 2] != magic_at(i) {
            return false;
        }
        i = i + 1;
    }
    true
}

/// A region with the two bytes of every 16-bit word swapped, a trailing odd byte left off.
pub open spec fn word_swapped(region: Seq<u8>) -> Seq<u8> {
    Seq::new(
        (region.len() - region.len() % 2) as nat,
        |i: int| if i % 2 == 0 { region[i + 1] } else { region[i - 1] },
    )
}

/// Swaps the two bytes of every 16-bit word.
pub(crate) fn swap_words(region: &[u8]) -> (r: Vec<u8>)
    ensures
        r@ == word_swapped(region@),
{
    let n = region.len() - region.len() % 2;
    let mut out: Vec<u8> = Vec::new();
    let mut i: usize = 0;
    while i < n
        invariant
            i <= n,
            n == region@.len() - region@.len() % 2,
            out@ == word_swapped(region@).take(i as int),
        decreases n - i,
    {
        if i % 2 == 0 {
            out.push(region[i + 1]);
        } else {
            out.push(region[i - 1]);
        }
        assert(out@ =~= word_swapped(region@).take(i + 1));
        i = i + 1;
    }
    assert(out@ =~= word_swapped(region@));
    out
}

/// The card inside whatever container it arrived in, and the backup RAM beside it.
pub open spec fn stripped(bytes: Seq<u8>) -> Option<(Container, Seq<u8>, Option<Seq<u8>>)> {
    if bytes.len() > MISTER_BACKUP_RAM && has_magic_spec(
        word_swapped(bytes.skip(MISTER_BACKUP_RAM as int)),
    ) {
        Some(
            (
                Container::MiSter,
                word_swapped(bytes.skip(MISTER_BACKUP_RAM as int)),
                Some(bytes.take(MISTER_BACKUP_RAM as int)),
            ),
        )
    } else if has_magic_spec(bytes) {
        Some((Container::Bare, bytes, None))
    } else {
        None
    }
}

/// The card a container holds, once taken out.
pub open spec fn stripped_card(bytes: Seq<u8>) -> Seq<u8> {
    stripped(bytes).unwrap().1
}

/// The bytes an optional run holds, as values.
pub open spec fn opt_view(o: Option<Vec<u8>>) -> Option<Seq<u8>> {
    match o {
        Some(v) => Some(v@),
        None => None,
    }
}

/// Finds the card inside whatever container it arrived in, and the backup RAM beside it.
///
/// The card comes back in the byte order the 68000 sees, whatever the container did to it. A
/// MiSTer save is checked first, because its card region is a plausible bare card on its own.
pub fn strip_container(bytes: &[u8]) -> (r: Option<(Container, Vec<u8>, Option<Vec<u8>>)>)
    ensures
        r is Some <==> stripped(bytes@) is Some,
        r matches Some(t) ==> stripped(bytes@) == Some((t.0, t.1@, opt_view(t.2))),
{
    if bytes.len() > MISTER_BACKUP_RAM {
        let region = &bytes[MISTER_BACKUP_RAM..bytes.len()];
        assert(region@ =~= bytes@.skip(MISTER_BACKUP_RAM as int));
        let swapped = swap_words(region);
        if has_magic(swapped.as_slice()) {
            let ram = copy_of(&bytes[0..MISTER_BACKUP_RAM]);
            assert(ram@ =~= bytes@.take(MISTER_BACKUP_RAM as int));
            return Some((Container::MiSter, swapped, Some(ram)));
        }
    }
    if has_magic(bytes) {
        return Some((Container::Bare, copy_of(bytes), None));
    }
    None
}

/// Whether these bytes look like a card, in any of the containers one ships in.
pub fn detect(bytes: &[u8]) -> (r: bool)
    ensures
        r == (stripped(bytes@) is Some),
{
    match strip_container(bytes) {
        Some(t) => has_magic(t.1.as_slice()),
        None => false,
    }
}

/// One save on a card.
#[derive(Debug, Clone, PartialEq, Eq)]
pub struct Save {
    /// The directory index it occupied.
    pub slot: usize,
    /// Which of the game's saves this is. A game may keep [`MAX_SUB`] of them.
    pub sub: u8,
    /// The game's NGH number, as the card stores it: binary-coded decimal, so Fatal Fury 2's
    /// NGH-047 is `0x0047` and Metal Slug X's NGH-250 is `0x0250`.
    pub ngh: u16,
    /// The directory entry's 4 bytes, verbatim.
    ///
    /// Empty when a save was built by hand rather than read off a card.
    pub dirent: Vec<u8>,
    /// The save's bytes: every block it occupies.
    ///
    /// This is the *allocated* run, which is as much as the card knows: a game tells the BIOS how
    /// many bytes it wants and the card does not record the answer.
    pub data: Vec<u8>,
}

/// What a save holds, as values.
pub struct SaveView {
    pub slot: int,
    pub sub: u8,
    pub ngh: u16,
    pub dirent: Seq<u8>,
    pub data: Seq<u8>,
}

impl View for Save {
    type V = SaveView;

    open spec fn view(&self) -> SaveView {
        SaveView { slot: self.slot as int, sub: self.sub, ngh: self.ngh, dirent: self.dirent@, data: self.data@ }
    }
}

/// The values of a run of saves.
pub open spec fn save_views(saves: Seq<Save>) -> Seq<SaveView> {
    Seq::new(saves.len(), |i: int| saves[i]@)
}

/// Whether a byte is legible in a title: printable ASCII, or a space.
pub open spec fn legible(b: u8) -> bool {
    0x20 <= b <= 0x7E
}

/// The text a title is read from: the first 20 bytes of a save's data, up to a NUL.
pub open spec fn title_text(data: Seq<u8>) -> Seq<u8> {
    until_nul_spec(data.take(if data.len() < 20 { data.len() as int } else { 20 }))
}

/// A save's title: its title text, trimmed, when every byte of it is legible; nothing otherwise.
pub open spec fn title_of(data: Seq<u8>) -> Seq<char> {
    let text = title_text(data);
    if text.len() == 0 || !(forall|i: int| 0 <= i < text.len() ==> legible(#[trigger] text[i])) {
        Seq::empty()
    } else {
        trim_end_chars(ascii_text(text))
    }
}

impl Save {
    /// The save's title, which games write into the first 20 bytes of their data.
    ///
    /// Empty when there is nothing legible there, which is not an error: the convention is the
    /// BIOS's and a game is free to put its own bytes in that space. Metal Slug X writes
    /// `METAL SLUG X`; Fatal Fury 2 writes a binary header and no title at all.
    pub fn title(&self) -> (r: String)
        ensures
            r@ == title_of(self.data@),
    {
        let len = if self.data.len() < 20 {
            self.data.len()
        } else {
            20
        };
        let field = &self.data.as_slice()[0..len];
        assert(field@ =~= self.data@.take(len as int));
        let text = until_nul(field);
        if text.len() == 0 {
            return String::new();
        }
        let mut i: usize = 0;
        while i < text.len()
            invariant
                i <= text@.len(),
                text@ == title_text(self.data@),
                forall|k: int| 0 <= k < i ==> legible(#[trigger] text@[k]),
            decreases text@.len() - i,
        {
            if text[i] < 0x20 || text[i] > 0x7E {
                proof {
                    let t = title_text(self.data@);
                    assert(t == text@);
                    assert(!legible(t[i as int]));
                    assert(!(forall|k: int| 0 <= k < t.len() ==> legible(#[trigger] t[k])));
                }
                return String::new();
            }
            i = i + 1;
        }
        let s = ascii_string(text);
        trim_end(s.as_str())
    }
}

/// The layout the card's size word states.
pub open spec fn stated_geometry(card: Seq<u8>) -> Option<Geometry> {
    geometry_of_word(be16(card, SIZE_OFFSET as int) as u16)
}

/// How many entries from `i` on are reserved marks, up to the first that is not.
pub open spec fn reserved_run(fat: Seq<u8>, i: int) -> int
    decreases fat.len() - i,
{
    if i < 0 || i >= fat.len() || fat[i] != FAT_RESERVED {
        i
    } else {
        reserved_run(fat, i + 1)
    }
}

/// The first allocation table of a card laid out by `g`.
pub open spec fn fat_of(card: Seq<u8>, g: Geometry) -> Seq<u8> {
    card.subrange(g.fat1_block * BLOCK, g.fat1_block * BLOCK + g.blocks)
}

/// The allocation table as links.
pub open spec fn fat_links(fat: Seq<u8>) -> Seq<u16> {
    fat.map_values(|b: u8| b as u16)
}

/// Directory entry `index` of a card laid out by `g`.
pub open spec fn entry_at(card: Seq<u8>, g: Geometry, index: int) -> Seq<u8> {
    card.subrange(g.directory_block * BLOCK + index * ENTRY_LEN, g.directory_block * BLOCK + (index + 1) * ENTRY_LEN)
}

/// Whether the chain from `first` is a readable save of `n` blocks on a card laid out by `g`.
pub open spec fn ends_on_card(links: Seq<u16>, first: int, n: nat, g: Geometry) -> bool {
    chain_ends(links, first, n, g.first_data_block as int, g.blocks as int, FAT_CHAIN_END as u16)
}

/// Whether a used entry's chain is a readable save, of some length.
pub open spec fn chain_readable(links: Seq<u16>, first: int, g: Geometry) -> bool {
    exists|n: nat| #[trigger] ends_on_card(links, first, n, g)
}

/// How many blocks a readable chain runs to.
pub open spec fn chain_length(links: Seq<u16>, first: int, g: Geometry) -> nat {
    choose|n: nat| #[trigger] ends_on_card(links, first, n, g)
}

/// Whether every used entry's chain is a readable save.
pub open spec fn directory_readable(card: Seq<u8>, g: Geometry) -> bool {
    forall|index: int|
        0 <= index < g.entries && (#[trigger] entry_at(card, g, index))[0] != FREE_ENTRY ==> chain_readable(
            fat_links(fat_of(card, g)),
            entry_at(card, g, index)[3] as int,
            g,
        )
}

/// The save a used entry describes.
pub open spec fn save_at(card: Seq<u8>, g: Geometry, index: int) -> SaveView {
    let e = entry_at(card, g, index);
    let links = fat_links(fat_of(card, g));
    SaveView {
        slot: index,
        sub: e[0],
        ngh: be16(e, 1) as u16,
        dirent: e,
        data: gather_blocks(card, chain_seq(links, e[3] as int, chain_length(links, e[3] as int, g)), BLOCK as int),
    }
}

/// The saves of the first `n` entries, in directory order.
pub open spec fn saves_upto(card: Seq<u8>, g: Geometry, n: int) -> Seq<SaveView>
    decreases n,
{
    if n <= 0 {
        Seq::empty()
    } else if entry_at(card, g, n - 1)[0] != FREE_ENTRY {
        saves_upto(card, g, n - 1).push(save_at(card, g, n - 1))
    } else {
        saves_upto(card, g, n - 1)
    }
}

/// A card image that could not be read, or could not be built.
#[derive(Debug, Clone, PartialEq, Eq)]
pub enum Error {
    /// The image is not a card, in any of the containers one ships in.
    WrongLength(usize),
    /// The image does not carry the `NEO-GEO` signature.
    NotAMemoryCard,
    /// The image is structurally broken in a way that is not recoverable by guessing.
    Corrupt(String),
    /// The card states a size this format does not come in.
    UnknownSize(usize),
    /// The card's geometry does not agree with its own allocation table.
    UnexpectedGeometry {
        /// How many blocks the computed layout reserves.
        computed: usize,
        /// How many the card's own table marks reserved.
        stated: usize,
    },
    /// The saves do not fit on a card.
    Full {
        /// How many blocks they need.
        needed: usize,
        /// How many blocks are free for saves.
        available: usize,
    },
    /// More saves than the directory has entries.
    TooManySaves {
        /// How many were offered.
        given: usize,
        /// How many the directory holds.
        available: usize,
    },
    /// A save with no bytes, which occupies no blocks and so cannot be filed.
    EmptySave(u16),
}

/// Walks the directory, following each used entry's chain.
fn read_directory(card: &[u8], geometry: Geometry) -> (r: Option<Vec<Save>>)
    requires
        geometry_of(geometry.size as int) == Some(geometry),
        card@.len() == geometry.size,
    ensures
        r is Some <==> directory_readable(card@, geometry),
        r matches Some(saves) ==> save_views(saves@) == saves_upto(card@, geometry, geometry.entries as int),
{
    proof {
        lemma_geometry_fits(geometry.size as int);
    }
    let fat_start = geometry.fat1_block * BLOCK;
    let fat = &card[fat_start..fat_start + geometry.blocks];
    let mut links: Vec<u16> = Vec::new();
    let mut b: usize = 0;
    while b < geometry.blocks
        invariant
            b <= geometry.blocks,
            fat@.len() == geometry.blocks,
            links@ == fat_links(fat@).take(b as int),
        decreases geometry.blocks - b,
    {
        links.push(fat[b] as u16);
        assert(links@ =~= fat_links(fat@).take(b + 1));
        b = b + 1;
    }
    assert(links@ =~= fat_links(fat@));
    assert(fat@ == fat_of(card@, geometry));
    let ghost lk = links@;
    let mut saves: Vec<Save> = Vec::new();
    let mut index: usize = 0;
    while index < geometry.entries
        invariant
            index <= geometry.entries,
            geometry_of(geometry.size as int) == Some(geometry),
            card@.len() == geometry.size,
            geometry.entries == geometry.blocks,
            geometry.directory_block * BLOCK + geometry.entries * ENTRY_LEN <= geometry.fat1_block * BLOCK,
            geometry.blocks * 64 == geometry.size,
            links@ == lk,
            lk == fat_links(fat_of(card@, geometry)),
            lk.len() == geometry.blocks,
            forall|i: int|
                0 <= i < index && (#[trigger] entry_at(card@, geometry, i))[0] != FREE_ENTRY ==> chain_readable(
                    lk,
                    entry_at(card@, geometry, i)[3] as int,
                    geometry,
                ),
            save_views(saves@) == saves_upto(card@, geometry, index as int),
        decreases geometry.entries - index,
    {
        let at = geometry.directory_block * BLOCK + index * ENTRY_LEN;
        let entry = &card[at..at + ENTRY_LEN];
        assert(entry@ == entry_at(card@, geometry, index as int));
        if entry[0] == FREE_ENTRY {
            index = index + 1;
            continue;
        }
        let first = entry[3] as usize;
        let chain = match follow_to_end(links.as_slice(), first, geometry.first_data_block, geometry.blocks, FAT_CHAIN_END as u16) {
            Some(chain) => chain,
            None => {
                proof {
                    assert forall|n: nat| !#[trigger] ends_on_card(lk, first as int, n, geometry) by {}
                    assert(!chain_readable(lk, first as int, geometry));
                }
                return None;
            },
        };
        proof {
            lemma_lists_chain(chain@, lk, first as int);
            assert(ends_on_card(lk, first as int, chain@.len() as nat, geometry));
            assert(chain_readable(lk, first as int, geometry));
            let n = chain_length(lk, first as int, geometry);
            lemma_one_length(lk, first as int, n, chain@.len() as nat, geometry.first_data_block as int, geometry.blocks as int, FAT_CHAIN_END as u16);
            assert forall|k: int| 0 <= k < chain@.len() implies (chain@[k] + 1) * BLOCK
                <= card@.len() by {
                assert(link(lk, first as int, k as nat) < geometry.blocks);
            }
        }
        let data = gather(card, chain.as_slice(), BLOCK);
        let save = Save {
            slot: index,
            sub: entry[0],
            ngh: read_be16(entry, 1),
            dirent: copy_of(entry),
            data,
        };
        proof {
            assert(save@ == save_at(card@, geometry, index as int));
        }
        saves.push(save);
        proof {
            assert(save_views(saves@) =~= saves_upto(card@, geometry, index as int + 1));
        }
        index = index + 1;
    }
    Some(saves)
}

/// A parsed memory card image.
#[derive(Debug)]
pub struct MemoryCard {
    card: Vec<u8>,
    backup_ram: Option<Vec<u8>>,
    container: Container,
    geometry: Geometry,
    saves: Vec<Save>,
}

/// What a parsed card holds, as values.
pub struct MemoryCardView {
    pub card: Seq<u8>,
    pub backup_ram: Option<Seq<u8>>,
    pub container: Container,
    pub geometry: Geometry,
    pub saves: Seq<SaveView>,
}

impl View for MemoryCard {
    type V = MemoryCardView;

    closed spec fn view(&self) -> MemoryCardView {
        MemoryCardView {
            card: self.card@,
            backup_ram: opt_view(self.backup_ram),
            container: self.container,
            geometry: self.geometry,
            saves: save_views(self.saves@),
        }
    }
}

/// The card a parse reads: the container taken off, cut to the size the card states.
pub open spec fn card_of(bytes: Seq<u8>) -> Seq<u8> {
    let card = stripped_card(bytes);
    card.take(stated_geometry(card)->0.size as int)
}

/// How many leading blocks the card's own table marks reserved.
pub open spec fn stated_reserved(bytes: Seq<u8>) -> int {
    let card = card_of(bytes);
    reserved_run(fat_of(card, stated_geometry(card)->0), 0)
}

/// Counts the leading reserved marks of a table.
fn count_reserved(fat: &[u8]) -> (r: usize)
    ensures
        r == reserved_run(fat@, 0),
{
    let mut i: usize = 0;
    while i < fat.len() && fat[i] == FAT_RESERVED
        invariant
            i <= fat@.len(),
            reserved_run(fat@, i as int) == reserved_run(fat@, 0),
        decreases fat@.len() - i,
    {
        i = i + 1;
    }
    i
}

impl MemoryCard {
    /// The card is always the size its layout says, laid out as cards of that size are.
    #[verifier::type_invariant]
    spec fn laid_out(self) -> bool {
        &&& geometry_of(self.geometry.size as int) == Some(self.geometry)
        &&& self.card@.len() == self.geometry.size
    }

    /// Reads a card image, bare or in a MiSTer save.
    pub fn parse(bytes: &[u8]) -> (r: Result<MemoryCard, Error>)
        ensures
            r matches Err(Error::WrongLength(_)) <==> stripped(bytes@) is None,
            r matches Err(Error::WrongLength(n)) ==> n == bytes@.len(),
            !(r matches Err(Error::NotAMemoryCard)),
            r matches Err(Error::UnknownSize(_)) <==> stripped(bytes@) is Some && stated_geometry(
                stripped_card(bytes@),
            ) is None,
            r matches Err(Error::UnknownSize(w)) ==> w == be16(stripped_card(bytes@), SIZE_OFFSET as int),
            r matches Err(Error::UnexpectedGeometry { .. }) <==> ({
                let card = stripped_card(bytes@);
                &&& stripped(bytes@) is Some
                &&& stated_geometry(card) is Some
                &&& card.len() >= stated_geometry(card)->0.size
                &&& stated_reserved(bytes@) != stated_geometry(card)->0.first_data_block
            }),
            r matches Err(Error::UnexpectedGeometry { computed, stated }) ==> computed
                == stated_geometry(stripped_card(bytes@))->0.first_data_block && stated
                == stated_reserved(bytes@),
            r matches Err(Error::Corrupt(_)) <==> ({
                let card = stripped_card(bytes@);
                &&& stripped(bytes@) is Some
                &&& stated_geometry(card) is Some
                &&& (card.len() < stated_geometry(card)->0.size || (stated_reserved(bytes@)
                    == stated_geometry(card)->0.first_data_block && !directory_readable(
                    card_of(bytes@),
                    stated_geometry(card)->0,
                )))
            }),
            r matches Ok(c) ==> ({
                let (container, card, ram) = stripped(bytes@)->0;
                let g = stated_geometry(card)->0;
                &&& stripped(bytes@) is Some
                &&& c@.card == card_of(bytes@)
                &&& c@.container == container
                &&& c@.backup_ram == ram
                &&& c@.geometry == g
                &&& c@.saves == saves_upto(card_of(bytes@), g, g.entries as int)
            }),
    {
        let (container, card, backup_ram) = match strip_container(bytes) {
            Some(t) => t,
            None => {
                return Err(Error::WrongLength(bytes.len()));
            },
        };
        if !has_magic(card.as_slice()) {
            return Err(Error::NotAMemoryCard);
        }
        let word = read_be16(card.as_slice(), SIZE_OFFSET);
        let geometry = match Geometry::from_size_word(word) {
            Some(g) => g,
            None => {
                return Err(Error::UnknownSize(word as usize));
            },
        };
        proof {
            lemma_geometry_fits(geometry.size as int);
        }
        if card.len() < geometry.size {
            return Err(Error::Corrupt("the card states more bytes than the image holds".to_owned()));
        }
        let card = copy_of(&card.as_slice()[0..geometry.size]);
        // The table's reserved marks and the computed layout are two statements about the same
        // thing. Trusting the offsets when they disagree would read a directory that is not there.
        let fat_start = geometry.fat1_block * BLOCK;
        let stated = count_reserved(&card.as_slice()[fat_start..fat_start + geometry.blocks]);
        if stated != geometry.first_data_block {
            return Err(Error::UnexpectedGeometry { computed: geometry.first_data_block, stated });
        }
        let saves = match read_directory(card.as_slice(), geometry) {
            Some(saves) => saves,
            None => {
                return Err(Error::Corrupt("a save's block chain does not end where it should".to_owned()));
            },
        };
        Ok(MemoryCard { card, backup_ram, container, geometry, saves })
    }

    /// Every save on the card, in directory order.
    pub fn saves(&self) -> (r: &[Save])
        ensures
            save_views(r@) == self@.saves,
    {
        self.saves.as_slice()
    }

    /// Takes the saves, for a caller that is going to rebuild rather than read on.
    pub fn into_saves(self) -> (r: Vec<Save>)
        ensures
            save_views(r@) == self@.saves,
    {
        self.saves
    }

    /// The card itself, in the byte order the 68000 sees, with any container taken off.
    pub fn image(&self) -> (r: &[u8])
        ensures
            r@ == self@.card,
    {
        self.card.as_slice()
    }

    /// What the image arrived in.
    pub fn container(&self) -> (r: Container)
        ensures
            r == self@.container,
    {
        self.container
    }

    /// The cabinet's backup RAM, when the container carried one.
    ///
    /// This is a *different* save from the card, since an MVS cabinet keeps its own, and it is
    /// here so that reading a MiSTer file does not quietly drop half of it.
    pub fn backup_ram(&self) -> (r: Option<&[u8]>)
        ensures
            r matches Some(s) ==> self@.backup_ram == Some(s@),
            r is None ==> self@.backup_ram is None,
    {
        match &self.backup_ram {
            Some(ram) => Some(ram.as_slice()),
            None => None,
        }
    }

    /// Where the card's regions sit.
    pub fn geometry(&self) -> (r: Geometry)
        ensures
            r == self@.geometry,
            geometry_of(r.size as int) == Some(r),
    {
        proof {
            use_type_invariant(self);
        }
        self.geometry
    }

    /// The card's capacity in bytes, structure included, as the card itself states it.
    pub fn capacity(&self) -> (r: usize)
        ensures
            r == self@.geometry.size,
    {
        self.geometry.size
    }

    /// Everything before the first data block: the header, the directory and both tables.
    ///
    /// A builder regenerates the entries and the tables and passes the rest through, so keeping
    /// this is what carries a card's username, region and free-slot bytes across a round trip.
    pub fn system_area(&self) -> (r: &[u8])
        ensures
            r@ == self@.card.take(self@.geometry.first_data_block * BLOCK),
    {
        proof {
            use_type_invariant(self);
            lemma_geometry_fits(self.geometry.size as int);
        }
        &self.card[0..self.geometry.first_data_block * BLOCK]
    }

    /// The card holder's username, as the card stores it.
    pub fn username(&self) -> (r: &[u8])
        ensures
            r@ == self@.card.subrange(USERNAME_OFFSET as int, USERNAME_OFFSET + 16),
    {
        proof {
            use_type_invariant(self);
            lemma_geometry_fits(self.geometry.size as int);
        }
        &self.card[USERNAME_OFFSET..USERNAME_OFFSET + 16]
    }

    /// Which market the card was formatted for.
    pub fn region(&self) -> (r: Region)
        ensures
            r == region_of(self@.card[REGION_OFFSET as int]),
    {
        proof {
            use_type_invariant(self);
            lemma_geometry_fits(self.geometry.size as int);
        }
        Region::from_byte(self.card[REGION_OFFSET])
    }
}

} // verus!
