//! Dreamcast Visual Memory Unit images.
//!
//! A VMU is 128 KiB of 512-byte blocks. Block 255 is the root block, block 254 the allocation
//! table, blocks 253 down to 241 the directory, and blocks 0 to 199 the saves. The directory grows
//! **downward** from 253, which is the one thing about this layout that catches people out.
//!
//! A mini-game executes in place from flash, so it must start at block 0 and stay contiguous. The
//! directory entry's type byte says which a save is, so a writer can honour that without
//! understanding the payload.
//!
//! Reading keeps each save's 32-byte directory entry verbatim, so its timestamp and header offset
//! survive being read out and written back.

pub mod writer;

use vstd::prelude::*;
use crate::bytes::{copy_of, le16, read_le16};
use crate::chain::{chain_ends, chain_seq, follow_counted, gather, gather_blocks, lemma_lists_chain};
use crate::text::{from_utf8_lossy, lossy_utf8, trim_end, trim_end_chars, until_nul, until_nul_spec};

verus! {

/// One block: the unit the allocation table counts and a save occupies.
pub const BLOCK: usize = 512;

/// How many blocks an image holds.
pub const BLOCKS: usize = 256;

/// The whole image.
pub const IMAGE_LEN: usize = BLOCK * BLOCKS;

/// The root block, holding the VMU's own colour and icon.
pub const ROOT_BLOCK: usize = 255;

/// The allocation table: 256 entries of two bytes.
pub const FAT_BLOCK: usize = 254;

/// The directory's first block. It runs downward from here.
pub const DIR_FIRST_BLOCK: usize = 253;

/// How many blocks the directory runs to.
pub const DIR_BLOCKS: usize = 13;

/// How many saves a VMU can hold.
pub const MAX_ENTRIES: usize = 200;

/// How many blocks saves can occupy.
pub const USER_BLOCKS: usize = 200;

/// The VMU's data capacity: what saves can occupy, not the length of an image.
pub const CAPACITY: usize = BLOCK * USER_BLOCKS;

/// A directory entry's length.
pub const ENTRY_LEN: usize = 32;

/// How many directory entries fit in one block.
pub const ENTRIES_PER_BLOCK: usize = BLOCK / ENTRY_LEN;

/// An allocation table entry meaning "this is the last block of its file".
pub const CHAIN_END: u16 = 0xFFFC;

/// An allocation table entry meaning "this block is free".
pub const FREE: u16 = 0xFFFA;

/// What a directory entry's type byte says a save is.
#[derive(Debug, Clone, Copy, PartialEq, Eq, Structural)]
pub enum FileKind {
    /// An ordinary save.
    Data,
    /// A mini-game, which executes in place and so must start at block 0 and stay contiguous.
    Game,
}

impl Default for FileKind {
    /// An ordinary save.
    fn default() -> (r: Self)
        ensures
            r == FileKind::Data,
    {
        FileKind::Data
    }
}

/// The type byte a kind is written as.
pub open spec fn kind_byte(kind: FileKind) -> u8 {
    match kind {
        FileKind::Data => 0x33,
        FileKind::Game => 0xCC,
    }
}

/// The kind a type byte names, if it names one.
pub open spec fn kind_of(byte: u8) -> Option<FileKind> {
    if byte == 0x33 {
        Some(FileKind::Data)
    } else if byte == 0xCC {
        Some(FileKind::Game)
    } else {
        None
    }
}

impl FileKind {
    /// The type byte a kind is written as.
    pub fn as_byte(self) -> (r: u8)
        ensures
            r == kind_byte(self),
    {
        match self {
            FileKind::Data => 0x33,
            FileKind::Game => 0xCC,
        }
    }

    /// The kind a type byte names, or `None` for a byte that is neither and so not a save at all.
    pub fn from_byte(byte: u8) -> (r: Option<Self>)
        ensures
            r == kind_of(byte),
    {
        match byte {
            0x33 => Some(FileKind::Data),
            0xCC => Some(FileKind::Game),
            _ => None,
        }
    }
}

/// A kind comes back from the byte it is written as, and a byte that names a kind is the one
/// that kind is written as.
pub proof fn lemma_kind_byte_round_trips(kind: FileKind, byte: u8)
    ensures
        kind_of(kind_byte(kind)) == Some(kind),
        kind_of(byte) is Some ==> kind_byte(kind_of(byte)->0) == byte,
{
}

/// A VMU image that could not be read, or could not be built.
#[derive(Debug, Clone, PartialEq, Eq)]
pub enum Error {
    /// The image is not the length a VMU comes in.
    WrongLength(usize),
    /// The root block does not carry the format mark, so the VMU is not formatted.
    NotFormatted,
    /// The image is structurally broken in a way that is not recoverable by guessing.
    Corrupt(String),
    /// The saves do not fit on a VMU.
    Full {
        /// How many blocks they need.
        needed: usize,
        /// How many blocks a VMU has for saves.
        available: usize,
    },
    /// More saves than the directory has entries.
    TooManySaves {
        /// How many were offered.
        given: usize,
        /// How many a VMU holds.
        available: usize,
    },
    /// A save with no bytes, which occupies no blocks and so cannot be filed.
    EmptySave(String),
}

/// The `i`-th byte of the root block.
pub open spec fn root_byte(image: Seq<u8>, i: int) -> u8 {
    image[(ROOT_BLOCK * BLOCK) as int + i]
}

/// Whether the root block opens with the sixteen `0x55` bytes a formatted VMU carries.
pub open spec fn formatted(image: Seq<u8>) -> bool {
    forall|i: int| 0 <= i < 16 ==> #[trigger] root_byte(image, i) == 0x55
}

/// Whether the root block opens with the format mark.
fn has_format_mark(bytes: &[u8]) -> (r: bool)
    requires
        bytes@.len() == IMAGE_LEN,
    ensures
        r == formatted(bytes@),
{
    let mut i: usize = 0;
    while i < 16
        invariant
            i <= 16,
            bytes@.len() == IMAGE_LEN,
            forall|k: int| 0 <= k < i ==> #[trigger] root_byte(bytes@, k) == 0x55,
        decreases 16 - i,
    {
        if bytes[ROOT_BLOCK * BLOCK + i] != 0x55 {
            assert(root_byte(bytes@, i as int) != 0x55);
            return false;
        }
        i = i + 1;
    }
    true
}

/// Whether these bytes look like a VMU image.
///
/// A formatted VMU opens its root block with sixteen bytes of `0x55`, which is the format check
/// the console itself makes.
pub fn detect(bytes: &[u8]) -> (r: bool)
    ensures
        r == (bytes@.len() == IMAGE_LEN && formatted(bytes@)),
{
    bytes.len() == IMAGE_LEN && has_format_mark(bytes)
}

/// Where one directory entry sits: the directory runs downward from block 253.
pub open spec fn entry_offset_spec(index: int) -> int {
    (DIR_FIRST_BLOCK - index / (ENTRIES_PER_BLOCK as int)) * BLOCK + (index % (ENTRIES_PER_BLOCK as int))
        * ENTRY_LEN
}

/// Where one directory entry sits.
///
/// The directory runs downward from block 253, so entry 16 is the first entry of block 252 and not
/// the seventeenth byte-run of a contiguous region.
pub fn entry_offset(index: usize) -> (r: usize)
    requires
        index / ENTRIES_PER_BLOCK <= DIR_FIRST_BLOCK,
    ensures
        r == entry_offset_spec(index as int),
{
    let block_index = DIR_FIRST_BLOCK - index / ENTRIES_PER_BLOCK;
    block_index * BLOCK + (index % ENTRIES_PER_BLOCK) * ENTRY_LEN
}

/// One save on a VMU.
#[derive(Debug, Clone, PartialEq, Eq)]
pub struct Save {
    /// The directory index it occupied.
    pub slot: usize,
    /// Whether this is an ordinary save or a mini-game, which constrains where it can go.
    pub kind: FileKind,
    /// The save's name, out of the entry's twelve-byte name field.
    pub name: String,
    /// The directory entry's 32 bytes, verbatim and opaque.
    ///
    /// Empty when a save was built by hand rather than read off a VMU.
    pub dirent: Vec<u8>,
    /// The save's bytes: every block it occupies, in chain order.
    pub data: Vec<u8>,
}

/// What a save holds, as values.
pub struct SaveView {
    pub slot: int,
    pub kind: FileKind,
    pub name: Seq<char>,
    pub dirent: Seq<u8>,
    pub data: Seq<u8>,
}

impl View for Save {
    type V = SaveView;

    open spec fn view(&self) -> SaveView {
        SaveView {
            slot: self.slot as int,
            kind: self.kind,
            name: self.name@,
            dirent: self.dirent@,
            data: self.data@,
        }
    }
}

/// The values of a run of saves.
pub open spec fn save_views(saves: Seq<Save>) -> Seq<SaveView> {
    Seq::new(saves.len(), |i: int| saves[i]@)
}

/// The allocation table: for every block, the block its save carries on in.
pub open spec fn fat_links(image: Seq<u8>) -> Seq<u16> {
    Seq::new(BLOCKS as nat, |b: int| le16(image, (FAT_BLOCK * BLOCK) as int + 2 * b) as u16)
}

/// A directory entry's 32 bytes.
pub open spec fn entry_at(image: Seq<u8>, slot: int) -> Seq<u8> {
    image.subrange(entry_offset_spec(slot), entry_offset_spec(slot) + ENTRY_LEN)
}

/// The block a save starts at, out of its entry.
pub open spec fn entry_first(entry: Seq<u8>) -> int {
    le16(entry, 2)
}

/// How many blocks the entry says a save occupies.
pub open spec fn entry_blocks(entry: Seq<u8>) -> int {
    le16(entry, 0x18)
}

/// Whether a directory entry is one this VMU can read: a free entry always is, and a used one
/// when its chain is a readable save of the length it states.
pub open spec fn entry_readable(image: Seq<u8>, slot: int) -> bool {
    let e = entry_at(image, slot);
    kind_of(e[0]) is Some ==> chain_ends(
        fat_links(image),
        entry_first(e),
        entry_blocks(e) as nat,
        0,
        USER_BLOCKS as int,
        CHAIN_END,
    )
}

/// Whether every entry of the directory can be read.
pub open spec fn directory_readable(image: Seq<u8>) -> bool {
    forall|slot: int| 0 <= slot < MAX_ENTRIES ==> entry_readable(image, slot)
}

/// A save's name: its twelve-byte field up to the first NUL, read as UTF-8 and with the trailing
/// padding trimmed.
pub open spec fn name_of(entry: Seq<u8>) -> Seq<char> {
    trim_end_chars(lossy_utf8(until_nul_spec(entry.subrange(4, 16))))
}

/// The save a used directory entry describes.
pub open spec fn save_at(image: Seq<u8>, slot: int) -> SaveView {
    let e = entry_at(image, slot);
    SaveView {
        slot,
        kind: kind_of(e[0])->0,
        name: name_of(e),
        dirent: e,
        data: gather_blocks(
            image,
            chain_seq(fat_links(image), entry_first(e), entry_blocks(e) as nat),
            BLOCK as int,
        ),
    }
}

/// The saves of the first `n` directory entries, in directory order.
pub open spec fn saves_upto(image: Seq<u8>, n: int) -> Seq<SaveView>
    decreases n,
{
    if n <= 0 {
        Seq::empty()
    } else if kind_of(entry_at(image, n - 1)[0]) is Some {
        saves_upto(image, n - 1).push(save_at(image, n - 1))
    } else {
        saves_upto(image, n - 1)
    }
}

/// What a listed save is: from a used entry below `n`, of the kind its type byte names, with its
/// entry verbatim and a block's worth of bytes for each block the entry states, of which there is
/// at least one.
pub open spec fn listed_save(image: Seq<u8>, s: SaveView, n: int) -> bool {
    &&& 0 <= s.slot < n
    &&& kind_of(entry_at(image, s.slot)[0]) == Some(s.kind)
    &&& s.dirent == entry_at(image, s.slot)
    &&& entry_blocks(s.dirent) >= 1
    &&& s.data.len() == BLOCK * entry_blocks(s.dirent)
}

/// The listing of the first `n` entries: in increasing slot order, each a listed save, and every
/// used entry below `n` among them.
proof fn lemma_listing_upto(image: Seq<u8>, n: int)
    requires
        image.len() == IMAGE_LEN,
        0 <= n <= MAX_ENTRIES,
        directory_readable(image),
    ensures
        forall|a: int, b: int|
            0 <= a < b < saves_upto(image, n).len() ==> #[trigger] saves_upto(image, n)[a].slot
                < #[trigger] saves_upto(image, n)[b].slot,
        forall|k: int|
            0 <= k < saves_upto(image, n).len() ==> listed_save(image, #[trigger] saves_upto(image, n)[k], n),
        forall|slot: int|
            0 <= slot < n && (#[trigger] kind_of(entry_at(image, slot)[0])) is Some ==> exists|k: int|
                0 <= k < saves_upto(image, n).len() && saves_upto(image, n)[k].slot == slot,
    decreases n,
{
    if n > 0 {
        lemma_listing_upto(image, n - 1);
        let prev = saves_upto(image, n - 1);
        let now = saves_upto(image, n);
        let e = entry_at(image, n - 1);
        if kind_of(e[0]) is Some {
            assert(now == prev.push(save_at(image, n - 1)));
            assert(entry_readable(image, n - 1));
            let links = fat_links(image);
            let blocks = entry_blocks(e);
            let chain = chain_seq(links, entry_first(e), blocks as nat);
            assert forall|k: int| 0 <= k < chain.len() implies (chain[k] + 1) * (BLOCK as int)
                <= image.len() by {
                assert(0 <= crate::chain::link(links, entry_first(e), k as nat) < USER_BLOCKS);
            }
            crate::chain::lemma_gather_len(image, chain, BLOCK as int);
            assert(listed_save(image, save_at(image, n - 1), n));
            assert forall|k: int| 0 <= k < now.len() implies listed_save(image, #[trigger] now[k], n) by {
                if k < prev.len() {
                    assert(now[k] == prev[k]);
                    assert(listed_save(image, prev[k], n - 1));
                }
            }
            assert forall|a: int, b: int| 0 <= a < b < now.len() implies #[trigger] now[a].slot
                < #[trigger] now[b].slot by {
                if b < prev.len() {
                    assert(now[a] == prev[a] && now[b] == prev[b]);
                } else {
                    assert(now[a] == prev[a]);
                    assert(listed_save(image, prev[a], n - 1));
                }
            }
            assert forall|slot: int|
                0 <= slot < n && (#[trigger] kind_of(entry_at(image, slot)[0])) is Some implies exists|k: int|
                0 <= k < now.len() && now[k].slot == slot by {
                if slot == n - 1 {
                    assert(now[now.len() - 1].slot == slot);
                } else {
                    let k = choose|k: int| 0 <= k < prev.len() && prev[k].slot == slot;
                    assert(now[k] == prev[k]);
                }
            }
        } else {
            assert(now == prev);
            assert forall|k: int| 0 <= k < now.len() implies listed_save(image, #[trigger] now[k], n) by {
                assert(listed_save(image, prev[k], n - 1));
            }
        }
    }
}

/// The save listing of a VMU that reads: in strictly increasing slot order, exactly the
/// directory's used entries (those whose type byte names a kind), each with its entry verbatim,
/// its kind from the type byte, and 512 bytes for each of the blocks its entry states, which are
/// at least one. [`Vmu::parse`] lists exactly `saves_upto(image, MAX_ENTRIES)`.
pub proof fn lemma_the_listing_is_the_used_entries(image: Seq<u8>)
    requires
        image.len() == IMAGE_LEN,
        directory_readable(image),
    ensures
        forall|a: int, b: int|
            0 <= a < b < saves_upto(image, MAX_ENTRIES as int).len() ==> #[trigger] saves_upto(
                image,
                MAX_ENTRIES as int,
            )[a].slot < #[trigger] saves_upto(image, MAX_ENTRIES as int)[b].slot,
        forall|k: int|
            0 <= k < saves_upto(image, MAX_ENTRIES as int).len() ==> listed_save(
                image,
                #[trigger] saves_upto(image, MAX_ENTRIES as int)[k],
                MAX_ENTRIES as int,
            ),
        forall|slot: int|
            0 <= slot < MAX_ENTRIES && (#[trigger] kind_of(entry_at(image, slot)[0])) is Some
                ==> exists|k: int|
                0 <= k < saves_upto(image, MAX_ENTRIES as int).len() && saves_upto(
                    image,
                    MAX_ENTRIES as int,
                )[k].slot == slot,
{
    lemma_listing_upto(image, MAX_ENTRIES as int);
}

/// A parsed VMU image.
#[derive(Debug)]
pub struct Vmu {
    image: Vec<u8>,
    saves: Vec<Save>,
}

/// What a parsed VMU holds, as values.
pub struct VmuView {
    pub image: Seq<u8>,
    pub saves: Seq<SaveView>,
}

impl View for Vmu {
    type V = VmuView;

    closed spec fn view(&self) -> VmuView {
        VmuView { image: self.image@, saves: save_views(self.saves@) }
    }
}

/// The allocation table as the block each block links to.
fn read_fat(bytes: &[u8]) -> (links: Vec<u16>)
    requires
        bytes@.len() == IMAGE_LEN,
    ensures
        links@ == fat_links(bytes@),
{
    let mut links: Vec<u16> = Vec::new();
    let mut b: usize = 0;
    while b < BLOCKS
        invariant
            b <= BLOCKS,
            bytes@.len() == IMAGE_LEN,
            links@.len() == b,
            forall|k: int| 0 <= k < b ==> links@[k] == fat_links(bytes@)[k],
        decreases BLOCKS - b,
    {
        links.push(read_le16(bytes, FAT_BLOCK * BLOCK + 2 * b));
        b = b + 1;
    }
    assert(links@ =~= fat_links(bytes@));
    links
}

impl Clone for Vmu {
    fn clone(&self) -> (r: Self)
        ensures
            r@.image == self@.image,
    {
        proof {
            use_type_invariant(self);
        }
        Vmu { image: copy_of(self.image.as_slice()), saves: self.saves.clone() }
    }
}

impl Vmu {
    /// The image is always a whole VMU.
    #[verifier::type_invariant]
    spec fn whole(self) -> bool {
        self.image@.len() == IMAGE_LEN
    }

    /// Reads a VMU image.
    pub fn parse(bytes: &[u8]) -> (r: Result<Vmu, Error>)
        ensures
            r is Ok <==> bytes@.len() == IMAGE_LEN && formatted(bytes@) && directory_readable(bytes@),
            r matches Err(Error::WrongLength(_)) <==> bytes@.len() != IMAGE_LEN,
            r matches Err(Error::WrongLength(n)) ==> n == bytes@.len(),
            r matches Err(Error::NotFormatted) <==> bytes@.len() == IMAGE_LEN && !formatted(bytes@),
            r matches Err(Error::Corrupt(_)) <==> bytes@.len() == IMAGE_LEN && formatted(bytes@)
                && !directory_readable(bytes@),
            r matches Ok(v) ==> v@.image == bytes@ && v@.saves == saves_upto(
                bytes@,
                MAX_ENTRIES as int,
            ),
    {
        if bytes.len() != IMAGE_LEN {
            return Err(Error::WrongLength(bytes.len()));
        }
        if !has_format_mark(bytes) {
            return Err(Error::NotFormatted);
        }
        let links = read_fat(bytes);
        let mut saves: Vec<Save> = Vec::new();
        let mut slot: usize = 0;
        while slot < MAX_ENTRIES
            invariant
                slot <= MAX_ENTRIES,
                bytes@.len() == IMAGE_LEN,
                formatted(bytes@),
                links@ == fat_links(bytes@),
                forall|s: int| 0 <= s < slot ==> entry_readable(bytes@, s),
                save_views(saves@) == saves_upto(bytes@, slot as int),
            decreases MAX_ENTRIES - slot,
        {
            let offset = entry_offset(slot);
            assert(offset + ENTRY_LEN <= IMAGE_LEN) by {
                assert(slot / ENTRIES_PER_BLOCK <= 12);
            }
            let entry = &bytes[offset..offset + ENTRY_LEN];
            assert(entry@ == entry_at(bytes@, slot as int));
            let kind = match FileKind::from_byte(entry[0]) {
                Some(kind) => kind,
                None => {
                    slot = slot + 1;
                    continue;
                },
            };
            let first = read_le16(entry, 2) as usize;
            let blocks = read_le16(entry, 0x18) as usize;
            let chain = match follow_counted(links.as_slice(), first, blocks, 0, USER_BLOCKS, CHAIN_END) {
                Some(chain) => chain,
                None => {
                    proof {
                        assert(!entry_readable(bytes@, slot as int));
                    }
                    return Err(Error::Corrupt("a save's block chain does not match its entry".to_owned()));
                },
            };
            proof {
                lemma_lists_chain(chain@, links@, first as int);
                assert forall|k: int| 0 <= k < chain@.len() implies (chain@[k] + 1) * BLOCK
                    <= bytes@.len() by {
                    assert(0 <= crate::chain::link(links@, first as int, k as nat) < USER_BLOCKS);
                }
            }
            let data = gather(bytes, chain.as_slice(), BLOCK);
            let text = until_nul(&entry[4..16]);
            let lossy = from_utf8_lossy(text);
            let name = trim_end(lossy.as_str());
            let save = Save { slot, kind, name, dirent: copy_of(entry), data };
            proof {
                assert(entry@.subrange(4, 16) =~= entry_at(bytes@, slot as int).subrange(4, 16));
                assert(save@ == save_at(bytes@, slot as int));
            }
            saves.push(save);
            proof {
                assert(save_views(saves@) =~= saves_upto(bytes@, slot as int + 1));
            }
            slot = slot + 1;
        }
        Ok(Vmu { image: copy_of(bytes), saves })
    }

    /// Every save on the VMU, in directory order.
    pub fn saves(&self) -> (r: &[Save])
        ensures
            save_views(r@) == self@.saves,
    {
        self.saves.as_slice()
    }

    /// Takes the saves, for a caller that is going to rebuild rather than read on.
    pub fn into_saves(self) -> (r: Vec<Save>)
        ensures
            save_views(r@) == self@.saves,
    {
        self.saves
    }

    /// The whole image.
    pub fn image(&self) -> (r: &[u8])
        ensures
            r@ == self@.image,
    {
        self.image.as_slice()
    }

    /// The VMU's data capacity: the 200 blocks saves can occupy, not the image's length.
    pub fn capacity(&self) -> (r: usize)
        ensures
            r == CAPACITY,
    {
        CAPACITY
    }

    /// The root block, which carries the VMU's custom colour and icon shape.
    ///
    /// Those belong to no save, so a caller that splits a VMU into its saves and keeps nothing
    /// else drops them.
    pub fn root_block(&self) -> (r: &[u8])
        ensures
            r@ == self@.image.subrange((ROOT_BLOCK * BLOCK) as int, IMAGE_LEN as int),
    {
        proof {
            use_type_invariant(self);
        }
        &self.image[ROOT_BLOCK * BLOCK..IMAGE_LEN]
    }
}

} // verus!
