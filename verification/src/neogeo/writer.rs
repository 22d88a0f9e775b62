//! Writing a card image out of a set of saves.
//!
//! The directory entries and both allocation tables are regenerated, along with the two checksums
//! the header carries for them. Everything else in the reserved region (the signature, the
//! username, the region byte, the bytes free directory slots happen to hold) is passed through
//! from whatever system area was given, so a card round-trips rather than being reformatted.

use vstd::prelude::*;
use crate::bytes::{be16, be16_bytes, ceil_div, push_all, push_repeated, units_of};
use crate::chain::{chain_ends, chain_seq, gather_blocks, holds_run, lemma_gather_run, lemma_one_length, lemma_run_is_chained};
use crate::neogeo::{
    card_of, chain_length, chain_readable, directory_readable, ends_on_card, entry_at, fat_links, fat_of,
    has_magic_spec, lemma_size_word_round_trips, save_at, saves_upto, stated_geometry, stated_reserved, stripped,
    byte_sum, fat_checksum, geometry_of, lemma_geometry_fits, magic_at, magic_byte, opt_view, save_views, swap_words,
    word_swapped, Container, Error, Geometry, MemoryCard, Save, SaveView, BLOCK, CHECKSUM_OFFSET, ENTRY_LEN,
    FAT_CHAIN_END, FAT_FREE, FAT_RESERVED, FREE_ENTRY, MAGIC_OFFSET, MISTER_BACKUP_RAM, MISTER_CARD_REGION,
    SIZE_OFFSET, USERNAME_OFFSET,
};

verus! {

/// A run with `b` written over it from `at`.
pub open spec fn splice(s: Seq<u8>, at: int, b: Seq<u8>) -> Seq<u8> {
    s.take(at) + b + s.skip(at + b.len())
}

/// What an erased card holds at offset `i`: every 16-bit word reads back twice its own offset,
/// big-endian, which is the address the byte answers to showing through.
pub open spec fn echo_byte(i: int) -> u8 {
    let word = ((i - i % 2) * 2) % 0x10000;
    if i % 2 == 0 {
        (word / 0x100) as u8
    } else {
        (word % 0x100) as u8
    }
}

/// A card with nothing written to it. Not zeros: a block no save occupies reads back the erased
/// pattern, and reproducing it is what lets a card a console wrote come back byte for byte.
pub open spec fn erased_card(size: int) -> Seq<u8> {
    Seq::new(size as nat, |i: int| echo_byte(i))
}

/// A freshly formatted header over an erased card: the size word, the signature one character
/// every other byte, and a username of spaces.
pub open spec fn formatted(card: Seq<u8>, g: Geometry) -> Seq<u8> {
    let sized = splice(card, SIZE_OFFSET as int, be16_bytes(g.size * 2));
    let signed = Seq::new(
        sized.len(),
        |i: int|
            if MAGIC_OFFSET <= i < MAGIC_OFFSET + 16 && (i - MAGIC_OFFSET) % 2 == 0 {
                magic_byte((i - MAGIC_OFFSET) / 2)
            } else {
                sized[i]
            },
    );
    splice(signed, USERNAME_OFFSET as int, Seq::new(16, |i: int| 0x20u8))
}

/// The card the saves are written over: the system area given, when it is this card's length,
/// over an erased card; a freshly formatted one otherwise.
pub open spec fn base_card(g: Geometry, area: Option<Seq<u8>>) -> Seq<u8> {
    match area {
        Some(a) => if a.len() == g.first_data_block * BLOCK {
            splice(erased_card(g.size as int), 0, a)
        } else {
            formatted(erased_card(g.size as int), g)
        },
        None => formatted(erased_card(g.size as int), g),
    }
}

/// Every directory entry marked free. Only the first byte says whether a slot is used, so the
/// rest of a free entry is left as it was found.
pub open spec fn freed(card: Seq<u8>, g: Geometry) -> Seq<u8> {
    Seq::new(
        card.len(),
        |i: int|
            if g.directory_block * BLOCK <= i < g.directory_block * BLOCK + g.entries * ENTRY_LEN && (i
                - g.directory_block * BLOCK) % (ENTRY_LEN as int) == 0 {
                FREE_ENTRY
            } else {
                card[i]
            },
    )
}

/// How many blocks a save occupies: its bytes, rounded up to whole blocks.
pub open spec fn blocks_of(v: SaveView) -> int {
    units_of(v.data.len() as int, BLOCK as int)
}

/// The blocks the first `k` saves take together.
pub open spec fn blocks_before(s: Seq<SaveView>, k: int) -> int
    decreases k,
{
    if k <= 0 {
        0
    } else {
        blocks_before(s, k - 1) + blocks_of(s[k - 1])
    }
}

/// Why a set of saves cannot be written: a save with no bytes, named by its NGH number, or a run
/// that needs more blocks than the card has for saves.
pub enum Refusal {
    Empty(u16),
    Full(int),
}

/// The first save, from save `i` on, that cannot be placed.
pub open spec fn fault(s: Seq<SaveView>, g: Geometry, i: int) -> Option<Refusal>
    decreases s.len() - i,
{
    if i >= s.len() {
        None
    } else if blocks_of(s[i]) == 0 {
        Some(Refusal::Empty(s[i].ngh))
    } else if g.first_data_block + blocks_before(s, i) + blocks_of(s[i]) > g.blocks {
        Some(Refusal::Full(blocks_before(s, i) + blocks_of(s[i])))
    } else {
        fault(s, g, i + 1)
    }
}

/// The directory entry a save is written with: its own four bytes, or its sub-slot and NGH
/// number, with the first block written over the last byte.
pub open spec fn entry_of(v: SaveView, first: int) -> Seq<u8> {
    let e = if v.dirent.len() == ENTRY_LEN {
        v.dirent
    } else {
        seq![v.sub, be16_bytes(v.ngh as int)[0], be16_bytes(v.ngh as int)[1], 0u8]
    };
    e.update(3, first as u8)
}

/// The card with the first `k` saves written onto it, their bytes from their first block on and
/// their entries in the slots they were added in.
pub open spec fn placed(s: Seq<SaveView>, g: Geometry, card: Seq<u8>, k: int) -> Seq<u8>
    decreases k,
{
    if k <= 0 {
        card
    } else {
        let first = g.first_data_block + blocks_before(s, k - 1);
        let with_data = splice(placed(s, g, card, k - 1), first * BLOCK, s[k - 1].data);
        splice(with_data, g.directory_block * BLOCK + (k - 1) * ENTRY_LEN, entry_of(s[k - 1], first))
    }
}

/// The allocation table entries of a run of `n` blocks from `first`.
pub open spec fn run_bytes(first: int, n: int) -> Seq<u8> {
    Seq::new(n as nat, |k: int| if k + 1 == n { FAT_CHAIN_END } else { (first + k + 1) as u8 })
}

/// The allocation table entries of the first `k` saves' chains.
pub open spec fn save_runs(s: Seq<SaveView>, g: Geometry, k: int) -> Seq<u8>
    decreases k,
{
    if k <= 0 {
        Seq::empty()
    } else {
        save_runs(s, g, k - 1) + run_bytes(g.first_data_block + blocks_before(s, k - 1), blocks_of(s[k - 1]))
    }
}

/// The allocation table: reserved marks over the structure, the saves' chains, and free after.
pub open spec fn fat_table(s: Seq<SaveView>, g: Geometry) -> Seq<u8> {
    Seq::new(g.first_data_block as nat, |i: int| FAT_RESERVED) + save_runs(s, g, s.len() as int) + Seq::new(
        (g.blocks - g.first_data_block - blocks_before(s, s.len() as int)) as nat,
        |i: int| FAT_FREE,
    )
}

/// The bare card a set of saves is written as: the saves over the base, both tables, and the
/// tables' checksum twice in the header.
pub open spec fn bare_card(s: Seq<SaveView>, g: Geometry, area: Option<Seq<u8>>) -> Seq<u8> {
    let card = placed(s, g, freed(base_card(g, area), g), s.len() as int);
    let fat = fat_table(s, g);
    let sum = (byte_sum(fat, fat.len() as int) % 256) as u8;
    splice(splice(card, g.fat1_block * BLOCK, fat), g.fat2_block * BLOCK, fat).update(
        CHECKSUM_OFFSET as int,
        sum,
    ).update(CHECKSUM_OFFSET + 1, sum)
}

/// What a card is written out as in a container: bare, or as the MiSTer core writes it, the
/// cabinet's backup RAM first and then the card with every 16-bit word swapped, in a region of
/// 8 KiB whatever the card's size.
pub open spec fn in_container(card: Seq<u8>, container: Container, ram: Option<Seq<u8>>) -> Seq<u8> {
    match container {
        Container::Bare => card,
        Container::MiSter => {
            let front = match ram {
                Some(r) => if r.len() == MISTER_BACKUP_RAM {
                    r
                } else {
                    Seq::new(MISTER_BACKUP_RAM as nat, |i: int| 0xFFu8)
                },
                None => Seq::new(MISTER_BACKUP_RAM as nat, |i: int| 0xFFu8),
            };
            front + word_swapped(card + Seq::new((MISTER_CARD_REGION - card.len()) as nat, |i: int| 0xFFu8))
        },
    }
}

/// Builds a card image from saves.
#[derive(Debug)]
pub struct CardBuilder {
    geometry: Geometry,
    saves: Vec<Save>,
    system_area: Option<Vec<u8>>,
    container: Container,
    backup_ram: Option<Vec<u8>>,
}

/// What a builder holds, as values.
pub struct CardBuilderView {
    pub geometry: Geometry,
    pub saves: Seq<SaveView>,
    pub system_area: Option<Seq<u8>>,
    pub container: Container,
    pub backup_ram: Option<Seq<u8>>,
}

impl View for CardBuilder {
    type V = CardBuilderView;

    closed spec fn view(&self) -> CardBuilderView {
        CardBuilderView {
            geometry: self.geometry,
            saves: save_views(self.saves@),
            system_area: opt_view(self.system_area),
            container: self.container,
            backup_ram: opt_view(self.backup_ram),
        }
    }
}

/// Writes a run of bytes over a card from `at`.
fn put(card: &mut Vec<u8>, at: usize, bytes: &[u8])
    requires
        at + bytes@.len() <= old(card)@.len(),
    ensures
        final(card)@ == splice(old(card)@, at as int, bytes@),
        final(card)@.len() == old(card)@.len(),
{
    let ghost start = card@;
    let total = card.len();
    let mut i: usize = 0;
    while i < bytes.len()
        invariant
            i <= bytes@.len(),
            total == start.len(),
            at + bytes@.len() <= start.len(),
            card@.len() == start.len(),
            card@ == start.take(at as int) + bytes@.take(i as int) + start.skip(at + i),
        decreases bytes@.len() - i,
    {
        card.set(at + i, bytes[i]);
        assert(card@ =~= start.take(at as int) + bytes@.take(i + 1) + start.skip(at + i + 1));
        i = i + 1;
    }
    assert(card@ =~= splice(start, at as int, bytes@));
}

/// A card with nothing written to it.
fn erased(size: usize) -> (r: Vec<u8>)
    requires
        size % 2 == 0,
        size <= 16384,
    ensures
        r@ == erased_card(size as int),
{
    let mut card: Vec<u8> = Vec::new();
    let mut offset: usize = 0;
    while offset < size
        invariant
            offset <= size,
            offset % 2 == 0,
            size % 2 == 0,
            size <= 16384,
            card@ == erased_card(size as int).take(offset as int),
        decreases size - offset,
    {
        let word = (offset * 2) % 0x10000;
        card.push((word / 0x100) as u8);
        card.push((word % 0x100) as u8);
        assert(card@ =~= erased_card(size as int).take(offset + 2));
        offset = offset + 2;
    }
    assert(card@ =~= erased_card(size as int));
    card
}

/// Writes a freshly formatted header over a card.
fn format_header(card: &mut Vec<u8>, g: Geometry)
    requires
        geometry_of(g.size as int) == Some(g),
        old(card)@.len() == g.size,
    ensures
        final(card)@ == formatted(old(card)@, g),
{
    proof {
        lemma_geometry_fits(g.size as int);
    }
    let word = g.size * 2;
    let size_word: [u8; 2] = [(word / 0x100) as u8, (word % 0x100) as u8];
    assert(size_word@ =~= be16_bytes(g.size * 2));
    put(card, SIZE_OFFSET, &size_word);
    let ghost sized = card@;
    let mut i: usize = 0;
    while i < 8
        invariant
            i <= 8,
            sized.len() == g.size,
            g.size >= 2048,
            card@ == Seq::new(
                sized.len(),
                |j: int|
                    if MAGIC_OFFSET <= j < MAGIC_OFFSET + 2 * i && (j - MAGIC_OFFSET) % 2 == 0 {
                        magic_byte((j - MAGIC_OFFSET) / 2)
                    } else {
                        sized[j]
                    },
            ),
        decreases 8 - i,
    {
        let ghost before = card@;
        card.set(MAGIC_OFFSET + 2 * i, magic_at(i));
        assert(card@ =~= Seq::new(
            sized.len(),
            |j: int|
                if MAGIC_OFFSET <= j < MAGIC_OFFSET + 2 * (i + 1) && (j - MAGIC_OFFSET) % 2 == 0 {
                    magic_byte((j - MAGIC_OFFSET) / 2)
                } else {
                    sized[j]
                },
        ));
        i = i + 1;
    }
    let spaces: [u8; 16] = [0x20; 16];
    assert(spaces@ =~= Seq::new(16, |k: int| 0x20u8));
    put(card, USERNAME_OFFSET, &spaces);
}

/// Marks every directory entry free.
fn free_entries(card: &mut Vec<u8>, g: Geometry)
    requires
        geometry_of(g.size as int) == Some(g),
        old(card)@.len() == g.size,
    ensures
        final(card)@ == freed(old(card)@, g),
{
    proof {
        lemma_geometry_fits(g.size as int);
    }
    let ghost start = card@;
    let base = g.directory_block * BLOCK;
    let mut index: usize = 0;
    while index < g.entries
        invariant
            index <= g.entries,
            base == g.directory_block * BLOCK,
            base + g.entries * ENTRY_LEN <= g.size,
            start.len() == g.size,
            card@ == Seq::new(
                start.len(),
                |j: int|
                    if base <= j < base + index * ENTRY_LEN && (j - base) % (ENTRY_LEN as int) == 0 {
                        FREE_ENTRY
                    } else {
                        start[j]
                    },
            ),
        decreases g.entries - index,
    {
        card.set(base + index * ENTRY_LEN, FREE_ENTRY);
        assert(card@ =~= Seq::new(
            start.len(),
            |j: int|
                if base <= j < base + (index + 1) * ENTRY_LEN && (j - base) % (ENTRY_LEN as int) == 0 {
                    FREE_ENTRY
                } else {
                    start[j]
                },
        ));
        index = index + 1;
    }
}

/// Appends the table entries of a run of `n` blocks from `first`.
fn push_run_bytes(fat: &mut Vec<u8>, first: usize, n: usize)
    requires
        first + n <= 256,
    ensures
        final(fat)@ == old(fat)@ + run_bytes(first as int, n as int),
{
    let ghost start = fat@;
    let mut k: usize = 0;
    while k < n
        invariant
            k <= n,
            first + n <= 256,
            fat@ == start + run_bytes(first as int, n as int).take(k as int),
        decreases n - k,
    {
        let link: u8 = if k + 1 == n {
            FAT_CHAIN_END
        } else {
            (first + k + 1) as u8
        };
        fat.push(link);
        assert(fat@ =~= start + run_bytes(first as int, n as int).take(k + 1));
        k = k + 1;
    }
    assert(run_bytes(first as int, n as int).take(n as int) =~= run_bytes(first as int, n as int));
}

/// A save's values, copied.
fn copy_save(save: &Save) -> (r: Save)
    ensures
        r@ == save@,
{
    Save {
        slot: save.slot,
        sub: save.sub,
        ngh: save.ngh,
        dirent: crate::bytes::copy_of(save.dirent.as_slice()),
        data: crate::bytes::copy_of(save.data.as_slice()),
    }
}

/// The blocks of the saves before any save are never more than those before a later one.
proof fn lemma_blocks_before_grow(s: Seq<SaveView>, i: int, j: int)
    requires
        0 <= i <= j <= s.len(),
    ensures
        0 <= blocks_before(s, i) <= blocks_before(s, j),
    decreases j,
{
    if i < j {
        lemma_blocks_before_grow(s, i, j - 1);
    } else if i > 0 {
        lemma_blocks_before_grow(s, i - 1, i - 1);
    }
}

/// A table's chains are as long as the blocks the saves take.
proof fn lemma_save_runs_len(s: Seq<SaveView>, g: Geometry, k: int)
    requires
        0 <= k <= s.len(),
    ensures
        save_runs(s, g, k).len() == blocks_before(s, k),
    decreases k,
{
    if k > 0 {
        lemma_save_runs_len(s, g, k - 1);
        lemma_blocks_before_grow(s, k - 1, k);
    }
}

impl CardBuilder {
    /// The layout is always one cards come in.
    #[verifier::type_invariant]
    spec fn laid_out(self) -> bool {
        geometry_of(self.geometry.size as int) == Some(self.geometry)
    }

    /// A builder for an empty card of this size in bytes, which must be one cards come in.
    pub fn new(size: usize) -> (r: Result<Self, Error>)
        ensures
            geometry_of(size as int) is None ==> (r matches Err(Error::UnknownSize(n)) && n == size),
            geometry_of(size as int) matches Some(g) ==> (r matches Ok(b) && b@.geometry == g
                && b@.saves == Seq::<SaveView>::empty() && b@.system_area is None && b@.container
                == Container::Bare && b@.backup_ram is None),
    {
        let geometry = match Geometry::of(size) {
            Some(g) => g,
            None => {
                return Err(Error::UnknownSize(size));
            },
        };
        let r = CardBuilder {
            geometry,
            saves: Vec::new(),
            system_area: None,
            container: Container::Bare,
            backup_ram: None,
        };
        assert(r@.saves =~= Seq::<SaveView>::empty());
        Ok(r)
    }

    /// A builder set up to rebuild the card this was read from, container and all.
    pub fn from_card(card: &MemoryCard) -> (r: Self)
        ensures
            r@.geometry == card@.geometry,
            r@.saves == card@.saves,
            r@.system_area == Some(card@.card.take(card@.geometry.first_data_block * BLOCK)),
            r@.container == card@.container,
            r@.backup_ram == card@.backup_ram,
    {
        let geometry = card.geometry();
        let from = card.saves();
        let mut saves: Vec<Save> = Vec::new();
        let mut i: usize = 0;
        while i < from.len()
            invariant
                i <= from@.len(),
                save_views(from@) == card@.saves,
                save_views(saves@) == save_views(from@).take(i as int),
            decreases from@.len() - i,
        {
            let ghost before = saves@;
            let item = &from[i];
            let copy = copy_save(item);
            proof {
                assert(item@ == from@[i as int]@);
                assert(copy@ == save_views(from@)[i as int]);
            }
            saves.push(copy);
            proof {
                assert(saves@ == before.push(copy));
                assert(save_views(saves@) =~= save_views(before).push(copy@));
                assert(save_views(from@).take(i + 1) =~= save_views(from@).take(i as int).push(
                    save_views(from@)[i as int],
                ));
            }
            i = i + 1;
        }
        assert(save_views(from@).take(from@.len() as int) =~= save_views(from@));
        let backup_ram = match card.backup_ram() {
            Some(ram) => Some(crate::bytes::copy_of(ram)),
            None => None,
        };
        CardBuilder {
            geometry,
            saves,
            system_area: Some(crate::bytes::copy_of(card.system_area())),
            container: card.container(),
            backup_ram,
        }
    }

    /// Keeps the reserved region read off another card: header, directory and both tables.
    ///
    /// A region that is not the right length for this card's layout is ignored when the card is
    /// written, since it is not this card's reserved region.
    pub fn system_area(&mut self, bytes: Vec<u8>) -> (r: &mut Self)
        ensures
            r@.geometry == old(self)@.geometry,
            r@.saves == old(self)@.saves,
            r@.system_area == Some(bytes@),
            r@.container == old(self)@.container,
            r@.backup_ram == old(self)@.backup_ram,
            final(self)@ == final(r)@,
    {
        proof {
            use_type_invariant(&*self);
        }
        self.system_area = Some(bytes);
        self
    }

    /// Writes the card out in this container rather than bare.
    pub fn container(&mut self, container: Container) -> (r: &mut Self)
        ensures
            r@.geometry == old(self)@.geometry,
            r@.saves == old(self)@.saves,
            r@.system_area == old(self)@.system_area,
            r@.container == container,
            r@.backup_ram == old(self)@.backup_ram,
            final(self)@ == final(r)@,
    {
        proof {
            use_type_invariant(&*self);
        }
        self.container = container;
        self
    }

    /// Keeps the cabinet backup RAM that rides in front of the card in a MiSTer save.
    pub fn backup_ram(&mut self, bytes: Vec<u8>) -> (r: &mut Self)
        ensures
            r@.geometry == old(self)@.geometry,
            r@.saves == old(self)@.saves,
            r@.system_area == old(self)@.system_area,
            r@.container == old(self)@.container,
            r@.backup_ram == Some(bytes@),
            final(self)@ == final(r)@,
    {
        proof {
            use_type_invariant(&*self);
        }
        self.backup_ram = Some(bytes);
        self
    }

    /// Adds a save. Its `slot` is ignored: the directory is filled in the order saves are added.
    pub fn add(&mut self, save: Save) -> (r: &mut Self)
        ensures
            r@.geometry == old(self)@.geometry,
            r@.saves == old(self)@.saves.push(save@),
            r@.system_area == old(self)@.system_area,
            r@.container == old(self)@.container,
            r@.backup_ram == old(self)@.backup_ram,
            final(self)@ == final(r)@,
    {
        proof {
            use_type_invariant(&*self);
        }
        let mut saves: Vec<Save> = Vec::new();
        std::mem::swap(&mut saves, &mut self.saves);
        saves.push(save);
        self.saves = saves;
        proof {
            assert(save_views(self.saves@) =~= save_views(old(self).saves@).push(save@));
        }
        self
    }

    /// Writes the card out, in whatever container was asked for.
    ///
    /// The MiSTer core keeps the card in an 8 KiB region, so only a card that fits one can be
    /// written in its container.
    pub fn build(&self) -> (r: Result<Vec<u8>, Error>)
        requires
            self@.container == Container::MiSter ==> self@.geometry.size <= MISTER_CARD_REGION,
        ensures
            self@.saves.len() > self@.geometry.entries ==> (r matches Err(Error::TooManySaves { given, available })
                && given == self@.saves.len() && available == self@.geometry.entries),
            self@.saves.len() <= self@.geometry.entries ==> match fault(self@.saves, self@.geometry, 0) {
                Some(Refusal::Empty(ngh)) => r matches Err(Error::EmptySave(n)) && n == ngh,
                Some(Refusal::Full(needed)) => r matches Err(Error::Full { needed: x, available: y }) && x
                    == needed && y == self@.geometry.blocks - self@.geometry.first_data_block,
                None => r matches Ok(out) && out@ == in_container(
                    bare_card(self@.saves, self@.geometry, self@.system_area),
                    self@.container,
                    self@.backup_ram,
                ),
            },
    {
        proof {
            use_type_invariant(self);
            lemma_geometry_fits(self.geometry.size as int);
        }
        let card = match self.build_bare() {
            Ok(card) => card,
            Err(e) => {
                return Err(e);
            },
        };
        match self.container {
            Container::Bare => Ok(card),
            Container::MiSter => {
                let mut out: Vec<u8> = Vec::new();
                match &self.backup_ram {
                    Some(ram) if ram.len() == MISTER_BACKUP_RAM => {
                        push_all(&mut out, ram.as_slice());
                    },
                    _ => {
                        push_repeated(&mut out, 0xFF, MISTER_BACKUP_RAM);
                    },
                }
                let mut region = card;
                let missing = MISTER_CARD_REGION - region.len();
                push_repeated(&mut region, 0xFF, missing);
                let swapped = swap_words(region.as_slice());
                push_all(&mut out, swapped.as_slice());
                Ok(out)
            },
        }
    }

    /// Writes the bare card, whatever container the result is going into.
    fn build_bare(&self) -> (r: Result<Vec<u8>, Error>)
        ensures
            self@.saves.len() > self@.geometry.entries ==> (r matches Err(Error::TooManySaves { given, available })
                && given == self@.saves.len() && available == self@.geometry.entries),
            self@.saves.len() <= self@.geometry.entries ==> match fault(self@.saves, self@.geometry, 0) {
                Some(Refusal::Empty(ngh)) => r matches Err(Error::EmptySave(n)) && n == ngh,
                Some(Refusal::Full(needed)) => r matches Err(Error::Full { needed: x, available: y }) && x
                    == needed && y == self@.geometry.blocks - self@.geometry.first_data_block,
                None => r matches Ok(card) && card@ == bare_card(self@.saves, self@.geometry, self@.system_area),
            },
            r matches Ok(card) ==> card@.len() == self@.geometry.size,
    {
        proof {
            use_type_invariant(self);
            lemma_geometry_fits(self.geometry.size as int);
        }
        let g = self.geometry;
        let ghost s = save_views(self.saves@);
        let n = self.saves.len();
        if n > g.entries {
            return Err(Error::TooManySaves { given: n, available: g.entries });
        }
        let mut card = erased(g.size);
        match &self.system_area {
            Some(area) if area.len() == g.first_data_block * BLOCK => {
                put(&mut card, 0, area.as_slice());
            },
            _ => {
                format_header(&mut card, g);
            },
        }
        proof {
            assert(card@ == base_card(g, self@.system_area));
        }
        free_entries(&mut card, g);
        let mut fat: Vec<u8> = Vec::new();
        push_repeated(&mut fat, FAT_RESERVED, g.first_data_block);
        let ghost start = card@;
        let mut next: usize = g.first_data_block;
        let mut i: usize = 0;
        while i < n
            invariant
                s == save_views(self.saves@),
                n == s.len(),
                n <= g.entries,
                i <= n,
                geometry_of(g.size as int) == Some(g),
                g.entries == g.blocks,
                32 <= g.blocks <= 256,
                g.blocks * 64 == g.size,
                g.directory_block * BLOCK + g.entries * ENTRY_LEN <= g.fat1_block * BLOCK,
                g.fat1_block < g.fat2_block < g.first_data_block <= g.blocks,
                g == self.geometry,
                n == self.saves@.len(),
                next == g.first_data_block + blocks_before(s, i as int),
                g.first_data_block <= next <= g.blocks,
                fault(s, g, 0) == fault(s, g, i as int),
                card@.len() == g.size,
                card@ == placed(s, g, start, i as int),
                fat@ == Seq::new(g.first_data_block as nat, |k: int| FAT_RESERVED) + save_runs(s, g, i as int),
            decreases n - i,
        {
            let save = &self.saves[i];
            assert(save@ == s[i as int]);
            let len = save.data.len();
            let b = ceil_div(len, BLOCK);
            if b == 0 {
                return Err(Error::EmptySave(save.ngh));
            }
            if next + b > g.blocks {
                return Err(Error::Full { needed: next - g.first_data_block + b, available: g.blocks - g.first_data_block });
            }
            put(&mut card, next * BLOCK, save.data.as_slice());
            let mut entry: Vec<u8> = Vec::new();
            if save.dirent.len() == ENTRY_LEN {
                push_all(&mut entry, save.dirent.as_slice());
            } else {
                entry.push(save.sub);
                entry.push((save.ngh / 0x100) as u8);
                entry.push((save.ngh % 0x100) as u8);
                entry.push(0);
            }
            entry.set(3, next as u8);
            proof {
                assert(entry@ =~= entry_of(s[i as int], next as int));
            }
            put(&mut card, g.directory_block * BLOCK + i * ENTRY_LEN, entry.as_slice());
            push_run_bytes(&mut fat, next, b);
            proof {
                assert(fat@ =~= Seq::new(g.first_data_block as nat, |k: int| FAT_RESERVED) + save_runs(s, g, i + 1));
            }
            next = next + b;
            i = i + 1;
        }
        push_repeated(&mut fat, FAT_FREE, g.blocks - next);
        proof {
            assert(fat@ =~= fat_table(s, g));
            lemma_save_runs_len(s, g, n as int);
            lemma_blocks_before_grow(s, n as int, n as int);
        }
        put(&mut card, g.fat1_block * BLOCK, fat.as_slice());
        put(&mut card, g.fat2_block * BLOCK, fat.as_slice());
        let sum = fat_checksum(fat.as_slice());
        card.set(CHECKSUM_OFFSET, sum);
        card.set(CHECKSUM_OFFSET + 1, sum);
        Ok(card)
    }
}

// ---------------------------------------------------------------------------------------------
// What is written reads back.

/// A splice leaves the run its length, puts the new bytes where they go, and leaves every other
/// byte alone.
proof fn lemma_splice(t: Seq<u8>, at: int, b: Seq<u8>)
    requires
        0 <= at,
        at + b.len() <= t.len(),
    ensures
        splice(t, at, b).len() == t.len(),
        forall|x: int|
            0 <= x < t.len() ==> #[trigger] splice(t, at, b)[x] == if at <= x < at + b.len() {
                b[x - at]
            } else {
                t[x]
            },
{
}

/// Where save `i` starts.
pub open spec fn first_of(s: Seq<SaveView>, g: Geometry, i: int) -> int {
    g.first_data_block + blocks_before(s, i)
}

/// The first byte of the entry a save brings, which says whether the slot is used.
pub open spec fn entry_head(v: SaveView) -> u8 {
    if v.dirent.len() == ENTRY_LEN {
        v.dirent[0]
    } else {
        v.sub
    }
}

/// With nothing refused, every save has a block and fits on the card, and so do they all.
proof fn lemma_saves_fit(s: Seq<SaveView>, g: Geometry, i: int)
    requires
        0 <= i <= s.len(),
        fault(s, g, i) is None,
        g.first_data_block + blocks_before(s, i) <= g.blocks,
    ensures
        g.first_data_block + blocks_before(s, s.len() as int) <= g.blocks,
        forall|j: int|
            i <= j < s.len() ==> blocks_of(#[trigger] s[j]) >= 1 && first_of(s, g, j) + blocks_of(s[j]) <= g.blocks,
    decreases s.len() - i,
{
    if i < s.len() {
        lemma_saves_fit(s, g, i + 1);
    }
}

/// Facts about where the saves land that every step below leans on.
proof fn lemma_layout(s: Seq<SaveView>, g: Geometry, j: int)
    requires
        geometry_of(g.size as int) == Some(g),
        s.len() <= g.entries,
        fault(s, g, 0) is None,
        0 <= j < s.len(),
    ensures
        g.entries == g.blocks,
        g.directory_block * BLOCK + g.entries * ENTRY_LEN <= g.fat1_block * BLOCK,
        g.fat1_block * BLOCK + g.blocks <= g.fat2_block * BLOCK,
        g.fat2_block < g.first_data_block,
        g.fat2_block * BLOCK + g.blocks <= g.first_data_block * BLOCK,
        g.blocks * BLOCK == g.size,
        g.directory_block == 1,
        g.size <= 16384,
        blocks_of(s[j]) >= 1,
        s[j].data.len() <= blocks_of(s[j]) * BLOCK,
        g.first_data_block <= first_of(s, g, j),
        first_of(s, g, j) + blocks_of(s[j]) == first_of(s, g, j + 1),
        first_of(s, g, j + 1) <= first_of(s, g, s.len() as int),
        first_of(s, g, s.len() as int) <= g.blocks,
{
    lemma_geometry_fits(g.size as int);
    lemma_saves_fit(s, g, 0);
    lemma_blocks_before_grow(s, 0, j);
    lemma_blocks_before_grow(s, j + 1, s.len() as int);
}

/// Writing the saves keeps the card's length.
proof fn lemma_placed_len(s: Seq<SaveView>, g: Geometry, c: Seq<u8>, k: int)
    requires
        geometry_of(g.size as int) == Some(g),
        c.len() == g.size,
        0 <= k <= s.len(),
        s.len() <= g.entries,
        fault(s, g, 0) is None,
    ensures
        placed(s, g, c, k).len() == c.len(),
    decreases k,
{
    if k > 0 {
        lemma_placed_len(s, g, c, k - 1);
        lemma_layout(s, g, k - 1);
        let prev = placed(s, g, c, k - 1);
        let f = first_of(s, g, k - 1);
        lemma_splice(prev, f * BLOCK, s[k - 1].data);
        let with_data = splice(prev, f * BLOCK, s[k - 1].data);
        lemma_splice(with_data, g.directory_block * BLOCK + (k - 1) * ENTRY_LEN, entry_of(s[k - 1], f));
    }
}

/// A save's bytes land from its first block on, and nothing written after moves them.
proof fn lemma_placed_data(s: Seq<SaveView>, g: Geometry, c: Seq<u8>, k: int, j: int, x: int)
    requires
        geometry_of(g.size as int) == Some(g),
        c.len() == g.size,
        0 <= j < k <= s.len(),
        s.len() <= g.entries,
        fault(s, g, 0) is None,
        first_of(s, g, j) * BLOCK <= x < first_of(s, g, j) * BLOCK + s[j].data.len(),
    ensures
        placed(s, g, c, k)[x] == s[j].data[x - first_of(s, g, j) * BLOCK],
    decreases k,
{
    lemma_layout(s, g, j);
    lemma_layout(s, g, k - 1);
    lemma_placed_len(s, g, c, k - 1);
    let prev = placed(s, g, c, k - 1);
    let f = first_of(s, g, k - 1);
    lemma_splice(prev, f * BLOCK, s[k - 1].data);
    let with_data = splice(prev, f * BLOCK, s[k - 1].data);
    lemma_splice(with_data, g.directory_block * BLOCK + (k - 1) * ENTRY_LEN, entry_of(s[k - 1], f));
    if j < k - 1 {
        lemma_placed_data(s, g, c, k - 1, j, x);
        lemma_blocks_before_grow(s, j + 1, k - 1);
    }
}

/// A save's entry lands in the slot it was added at, and nothing written after moves it.
proof fn lemma_placed_entry(s: Seq<SaveView>, g: Geometry, c: Seq<u8>, k: int, j: int, x: int)
    requires
        geometry_of(g.size as int) == Some(g),
        c.len() == g.size,
        0 <= j < k <= s.len(),
        s.len() <= g.entries,
        fault(s, g, 0) is None,
        g.directory_block * BLOCK + j * ENTRY_LEN <= x < g.directory_block * BLOCK + j * ENTRY_LEN + ENTRY_LEN,
    ensures
        placed(s, g, c, k)[x] == entry_of(s[j], first_of(s, g, j))[x - (g.directory_block * BLOCK + j * ENTRY_LEN)],
    decreases k,
{
    lemma_layout(s, g, j);
    lemma_layout(s, g, k - 1);
    lemma_placed_len(s, g, c, k - 1);
    let prev = placed(s, g, c, k - 1);
    let f = first_of(s, g, k - 1);
    lemma_splice(prev, f * BLOCK, s[k - 1].data);
    let with_data = splice(prev, f * BLOCK, s[k - 1].data);
    lemma_splice(with_data, g.directory_block * BLOCK + (k - 1) * ENTRY_LEN, entry_of(s[k - 1], f));
    if j < k - 1 {
        lemma_placed_entry(s, g, c, k - 1, j, x);
    }
}

/// Where no save's bytes and no save's entry were written, the card holds what it held.
proof fn lemma_placed_untouched(s: Seq<SaveView>, g: Geometry, c: Seq<u8>, k: int, x: int)
    requires
        geometry_of(g.size as int) == Some(g),
        c.len() == g.size,
        0 <= k <= s.len(),
        s.len() <= g.entries,
        fault(s, g, 0) is None,
        0 <= x < c.len(),
        x < g.directory_block * BLOCK + 0 || g.directory_block * BLOCK + k * ENTRY_LEN <= x,
        forall|j: int|
            0 <= j < k ==> !(first_of(s, g, j) * BLOCK <= x < first_of(s, g, j) * BLOCK + (#[trigger] s[j]).data.len()),
    ensures
        placed(s, g, c, k)[x] == c[x],
    decreases k,
{
    if k > 0 {
        lemma_layout(s, g, k - 1);
        lemma_placed_len(s, g, c, k - 1);
        lemma_placed_untouched(s, g, c, k - 1, x);
        let prev = placed(s, g, c, k - 1);
        let f = first_of(s, g, k - 1);
        lemma_splice(prev, f * BLOCK, s[k - 1].data);
        let with_data = splice(prev, f * BLOCK, s[k - 1].data);
        lemma_splice(with_data, g.directory_block * BLOCK + (k - 1) * ENTRY_LEN, entry_of(s[k - 1], f));
    }
}

/// The saves' chains, laid end to end.
proof fn lemma_save_runs(s: Seq<SaveView>, g: Geometry, k: int)
    requires
        0 <= k <= s.len(),
    ensures
        save_runs(s, g, k).len() == blocks_before(s, k),
        forall|j: int, m: int|
            0 <= j < k && 0 <= m < blocks_of(s[j]) ==> #[trigger] save_runs(s, g, k)[blocks_before(s, j) + m]
                == #[trigger] run_bytes(g.first_data_block + blocks_before(s, j), blocks_of(s[j]))[m],
    decreases k,
{
    if k > 0 {
        lemma_blocks_before_grow(s, k - 1, k);
        lemma_save_runs(s, g, k - 1);
        let prev = save_runs(s, g, k - 1);
        let tail = run_bytes(g.first_data_block + blocks_before(s, k - 1), blocks_of(s[k - 1]));
        let cur = save_runs(s, g, k);
        assert(cur == prev + tail);
        assert forall|j: int, m: int| 0 <= j < k && 0 <= m < blocks_of(s[j]) implies #[trigger] cur[blocks_before(s, j)
            + m] == #[trigger] run_bytes(g.first_data_block + blocks_before(s, j), blocks_of(s[j]))[m] by {
            lemma_blocks_before_grow(s, 0, j);
            lemma_blocks_before_grow(s, j, j + 1);
            if j < k - 1 {
                lemma_blocks_before_grow(s, j + 1, k - 1);
                assert(cur[blocks_before(s, j) + m] == prev[blocks_before(s, j) + m]);
            }
        }
    }
}

/// The table a card is written with: its length, its reserved marks, and each save's chain.
proof fn lemma_fat_table(s: Seq<SaveView>, g: Geometry)
    requires
        geometry_of(g.size as int) == Some(g),
        s.len() <= g.entries,
        fault(s, g, 0) is None,
    ensures
        fat_table(s, g).len() == g.blocks,
        forall|y: int| 0 <= y < g.first_data_block ==> #[trigger] fat_table(s, g)[y] == FAT_RESERVED,
        fat_table(s, g)[g.first_data_block as int] != FAT_RESERVED,
        forall|j: int, m: int|
            0 <= j < s.len() && 0 <= m < blocks_of(s[j]) ==> #[trigger] fat_table(s, g)[first_of(s, g, j) + m]
                == #[trigger] run_bytes(first_of(s, g, j), blocks_of(s[j]))[m],
{
    let n = s.len() as int;
    lemma_geometry_fits(g.size as int);
    lemma_saves_fit(s, g, 0);
    lemma_blocks_before_grow(s, 0, n);
    lemma_save_runs(s, g, n);
    let runs = save_runs(s, g, n);
    let t = fat_table(s, g);
    assert forall|j: int, m: int| 0 <= j < s.len() && 0 <= m < blocks_of(s[j]) implies #[trigger] t[first_of(s, g, j)
        + m] == #[trigger] run_bytes(first_of(s, g, j), blocks_of(s[j]))[m] by {
        lemma_layout(s, g, j);
        lemma_blocks_before_grow(s, 0, j);
        assert(t[first_of(s, g, j) + m] == runs[blocks_before(s, j) + m]);
    }
    if n > 0 {
        lemma_layout(s, g, 0);
        assert(t[g.first_data_block as int] == run_bytes(first_of(s, g, 0), blocks_of(s[0]))[0]);
    }
}

/// Counting reserved marks stops at the first entry that is not one.
proof fn lemma_reserved_run(t: Seq<u8>, i: int, stop: int)
    requires
        0 <= i <= stop < t.len(),
        forall|y: int| 0 <= y < stop ==> #[trigger] t[y] == FAT_RESERVED,
        t[stop] != FAT_RESERVED,
    ensures
        crate::neogeo::reserved_run(t, i) == stop,
    decreases stop - i,
{
    if i < stop {
        lemma_reserved_run(t, i + 1, stop);
    }
}

/// The base a card is written over is the card's length, and past the reserved region it is the
/// erased pattern.
proof fn lemma_base(g: Geometry, area: Option<Seq<u8>>)
    requires
        geometry_of(g.size as int) == Some(g),
    ensures
        base_card(g, area).len() == g.size,
        forall|x: int|
            g.first_data_block * BLOCK <= x < g.size ==> #[trigger] base_card(g, area)[x] == echo_byte(x),
{
    lemma_geometry_fits(g.size as int);
    let erased = erased_card(g.size as int);
    let sized = splice(erased, SIZE_OFFSET as int, be16_bytes(g.size * 2));
    lemma_splice(erased, SIZE_OFFSET as int, be16_bytes(g.size * 2));
    let signed = Seq::new(
        sized.len(),
        |i: int|
            if MAGIC_OFFSET <= i < MAGIC_OFFSET + 16 && (i - MAGIC_OFFSET) % 2 == 0 {
                magic_byte((i - MAGIC_OFFSET) / 2)
            } else {
                sized[i]
            },
    );
    lemma_splice(signed, USERNAME_OFFSET as int, Seq::new(16, |i: int| 0x20u8));
    assert(formatted(erased, g) == splice(signed, USERNAME_OFFSET as int, Seq::new(16, |i: int| 0x20u8)));
    match area {
        Some(a) => {
            if a.len() == g.first_data_block * BLOCK {
                lemma_splice(erased, 0, a);
            }
        },
        None => {},
    }
}

/// Freeing the directory marks each slot's first byte and touches nothing else.
proof fn lemma_freed(card: Seq<u8>, g: Geometry)
    ensures
        freed(card, g).len() == card.len(),
        forall|x: int|
            0 <= x < card.len() && (x < g.directory_block * BLOCK || g.directory_block * BLOCK + g.entries
                * ENTRY_LEN <= x) ==> #[trigger] freed(card, g)[x] == card[x],
        forall|i: int|
            0 <= i < g.entries && g.directory_block * BLOCK + i * ENTRY_LEN < card.len() ==> #[trigger] freed(
                card,
                g,
            )[g.directory_block * BLOCK + i * ENTRY_LEN] == FREE_ENTRY,
{
}

/// The card written: its length, its tables, and everywhere else what the saves left.
proof fn lemma_bare(s: Seq<SaveView>, g: Geometry, area: Option<Seq<u8>>)
    requires
        geometry_of(g.size as int) == Some(g),
        s.len() <= g.entries,
        fault(s, g, 0) is None,
    ensures
        bare_card(s, g, area).len() == g.size,
        forall|y: int| 0 <= y < g.blocks ==> #[trigger] bare_card(s, g, area)[g.fat1_block * BLOCK + y] == fat_table(
            s,
            g,
        )[y],
        forall|x: int|
            0 <= x < g.size && x != CHECKSUM_OFFSET && x != CHECKSUM_OFFSET + 1 && !(g.fat1_block * BLOCK <= x
                < g.fat1_block * BLOCK + g.blocks) && !(g.fat2_block * BLOCK <= x < g.fat2_block * BLOCK + g.blocks)
                ==> #[trigger] bare_card(s, g, area)[x] == placed(
                s,
                g,
                freed(base_card(g, area), g),
                s.len() as int,
            )[x],
{
    lemma_geometry_fits(g.size as int);
    lemma_base(g, area);
    let base = freed(base_card(g, area), g);
    lemma_freed(base_card(g, area), g);
    lemma_placed_len(s, g, base, s.len() as int);
    let p = placed(s, g, base, s.len() as int);
    lemma_fat_table(s, g);
    let fat = fat_table(s, g);
    lemma_splice(p, g.fat1_block * BLOCK, fat);
    let one = splice(p, g.fat1_block * BLOCK, fat);
    lemma_splice(one, g.fat2_block * BLOCK, fat);
}

/// What save `i` reads back as its bytes: the bytes it was written with, and the erased pattern
/// after them to the end of its last block.
pub open spec fn written_data(s: Seq<SaveView>, g: Geometry, i: int) -> Seq<u8> {
    let f = first_of(s, g, i);
    s[i].data + erased_card(g.size as int).subrange(f * BLOCK + s[i].data.len(), (f + blocks_of(s[i])) * BLOCK)
}

/// What save `i` reads back as: in the slot it was added at, with the entry it was written with
/// and the sub-slot and NGH number that entry carries.
pub open spec fn written_save(s: Seq<SaveView>, g: Geometry, i: int) -> SaveView {
    let e = entry_of(s[i], first_of(s, g, i));
    SaveView { slot: i, sub: e[0], ngh: be16(e, 1) as u16, dirent: e, data: written_data(s, g, i) }
}

/// The header of a written card is the header of the base it was written over, but for the two
/// checksum bytes.
proof fn lemma_header_kept(s: Seq<SaveView>, g: Geometry, area: Option<Seq<u8>>, x: int)
    requires
        geometry_of(g.size as int) == Some(g),
        s.len() <= g.entries,
        fault(s, g, 0) is None,
        0 <= x < g.directory_block * BLOCK,
        x != CHECKSUM_OFFSET,
        x != CHECKSUM_OFFSET + 1,
    ensures
        bare_card(s, g, area)[x] == base_card(g, area)[x],
{
    lemma_geometry_fits(g.size as int);
    lemma_bare(s, g, area);
    lemma_base(g, area);
    lemma_freed(base_card(g, area), g);
    let c = freed(base_card(g, area), g);
    assert forall|j: int| 0 <= j < s.len() implies !(first_of(s, g, j) * BLOCK <= x < first_of(s, g, j) * BLOCK
        + (#[trigger] s[j]).data.len()) by {
        lemma_layout(s, g, j);
    }
    lemma_placed_untouched(s, g, c, s.len() as int, x);
}

/// Each slot of a written card holds the entry written there, or a free mark.
proof fn lemma_slot_entry(s: Seq<SaveView>, g: Geometry, area: Option<Seq<u8>>, i: int)
    requires
        geometry_of(g.size as int) == Some(g),
        s.len() <= g.entries,
        fault(s, g, 0) is None,
        0 <= i < g.entries,
    ensures
        i < s.len() ==> entry_at(bare_card(s, g, area), g, i) == entry_of(s[i], first_of(s, g, i)),
        i >= s.len() ==> entry_at(bare_card(s, g, area), g, i)[0] == FREE_ENTRY,
{
    lemma_geometry_fits(g.size as int);
    lemma_bare(s, g, area);
    lemma_base(g, area);
    lemma_freed(base_card(g, area), g);
    let c = freed(base_card(g, area), g);
    lemma_placed_len(s, g, c, s.len() as int);
    let card = bare_card(s, g, area);
    let at = g.directory_block * BLOCK + i * ENTRY_LEN;
    if i < s.len() {
        let e = entry_of(s[i], first_of(s, g, i));
        assert(e.len() == ENTRY_LEN);
        assert(at + ENTRY_LEN <= card.len());
        assert forall|y: int| 0 <= y < ENTRY_LEN implies #[trigger] entry_at(card, g, i)[y] == e[y] by {
            lemma_placed_entry(s, g, c, s.len() as int, i, at + y);
            assert(entry_at(card, g, i)[y] == card[at + y]);
        }
        assert(entry_at(card, g, i) =~= e);
    } else {
        assert forall|j: int| 0 <= j < s.len() implies !(first_of(s, g, j) * BLOCK <= at < first_of(s, g, j) * BLOCK
            + (#[trigger] s[j]).data.len()) by {
            lemma_layout(s, g, j);
        }
        lemma_placed_untouched(s, g, c, s.len() as int, at);
        assert(entry_at(card, g, i)[0] == card[at]);
    }
}

/// A save's blocks on a written card hold its bytes, then the erased pattern.
proof fn lemma_save_bytes(s: Seq<SaveView>, g: Geometry, area: Option<Seq<u8>>, i: int)
    requires
        geometry_of(g.size as int) == Some(g),
        s.len() <= g.entries,
        fault(s, g, 0) is None,
        0 <= i < s.len(),
    ensures
        bare_card(s, g, area).subrange(
            first_of(s, g, i) * BLOCK,
            (first_of(s, g, i) + blocks_of(s[i])) * BLOCK,
        ) == written_data(s, g, i),
{
    lemma_geometry_fits(g.size as int);
    lemma_layout(s, g, i);
    lemma_bare(s, g, area);
    lemma_base(g, area);
    lemma_freed(base_card(g, area), g);
    let c = freed(base_card(g, area), g);
    lemma_placed_len(s, g, c, s.len() as int);
    let card = bare_card(s, g, area);
    let f = first_of(s, g, i);
    let b = blocks_of(s[i]);
    let len = s[i].data.len() as int;
    let want = written_data(s, g, i);
    assert(want.len() == b * BLOCK);
    assert((f + b) * BLOCK <= card.len());
    assert forall|y: int| 0 <= y < b * BLOCK implies #[trigger] card.subrange(f * BLOCK, (f + b) * BLOCK)[y] == want[y] by {
        let x = f * BLOCK + y;
        assert(card.subrange(f * BLOCK, (f + b) * BLOCK)[y] == card[x]);
        if y < len {
            lemma_placed_data(s, g, c, s.len() as int, i, x);
        } else {
            assert forall|j: int| 0 <= j < s.len() implies !(first_of(s, g, j) * BLOCK <= x < first_of(s, g, j) * BLOCK
                + (#[trigger] s[j]).data.len()) by {
                lemma_layout(s, g, j);
                if j < i {
                    lemma_blocks_before_grow(s, j + 1, i);
                } else if j > i {
                    lemma_blocks_before_grow(s, i + 1, j);
                }
            }
            lemma_placed_untouched(s, g, c, s.len() as int, x);
        }
    }
    assert(card.subrange(f * BLOCK, (f + b) * BLOCK) =~= want);
}

/// A save's run on a written card is a readable chain of exactly its blocks.
proof fn lemma_save_chain(s: Seq<SaveView>, g: Geometry, area: Option<Seq<u8>>, i: int)
    requires
        geometry_of(g.size as int) == Some(g),
        s.len() <= g.entries,
        fault(s, g, 0) is None,
        0 <= i < s.len(),
    ensures
        fat_of(bare_card(s, g, area), g) == fat_table(s, g),
        ends_on_card(fat_links(fat_table(s, g)), first_of(s, g, i), blocks_of(s[i]) as nat, g),
        chain_seq(fat_links(fat_table(s, g)), first_of(s, g, i), blocks_of(s[i]) as nat) == Seq::new(
            blocks_of(s[i]) as nat,
            |k: int| (first_of(s, g, i) + k) as usize,
        ),
{
    lemma_geometry_fits(g.size as int);
    lemma_layout(s, g, i);
    lemma_bare(s, g, area);
    lemma_fat_table(s, g);
    let card = bare_card(s, g, area);
    let fat = fat_table(s, g);
    assert forall|y: int| 0 <= y < g.blocks implies #[trigger] fat_of(card, g)[y] == fat[y] by {
        assert(fat_of(card, g)[y] == card[g.fat1_block * BLOCK + y]);
    }
    assert(fat_of(card, g) =~= fat);
    let links = fat_links(fat);
    let f = first_of(s, g, i);
    let b = blocks_of(s[i]);
    assert forall|m: int| 0 <= m < b implies #[trigger] links[f + m] == if m + 1 == b {
        FAT_CHAIN_END as u16
    } else {
        (f + m + 1) as u16
    } by {
        assert(fat[f + m] == run_bytes(f, b)[m]);
    }
    lemma_run_is_chained(links, f, b, g.first_data_block as int, g.blocks as int, FAT_CHAIN_END as u16);
}

/// Each slot of a written card reads back: a save's slot as that save was written, any other as
/// free.
proof fn lemma_card_slot_reads_back(s: Seq<SaveView>, g: Geometry, area: Option<Seq<u8>>, i: int)
    requires
        geometry_of(g.size as int) == Some(g),
        s.len() <= g.entries,
        fault(s, g, 0) is None,
        forall|j: int| 0 <= j < s.len() ==> entry_head(#[trigger] s[j]) != FREE_ENTRY,
        0 <= i < g.entries,
    ensures
        i < s.len() ==> entry_at(bare_card(s, g, area), g, i)[0] != FREE_ENTRY && chain_readable(
            fat_links(fat_of(bare_card(s, g, area), g)),
            entry_at(bare_card(s, g, area), g, i)[3] as int,
            g,
        ) && save_at(bare_card(s, g, area), g, i) == written_save(s, g, i),
        i >= s.len() ==> entry_at(bare_card(s, g, area), g, i)[0] == FREE_ENTRY,
{
    lemma_slot_entry(s, g, area, i);
    if i < s.len() {
        let card = bare_card(s, g, area);
        lemma_layout(s, g, i);
        lemma_save_chain(s, g, area, i);
        lemma_save_bytes(s, g, area, i);
        let f = first_of(s, g, i);
        let b = blocks_of(s[i]);
        let e = entry_of(s[i], f);
        assert(e[3] as int == f);
        let links = fat_links(fat_table(s, g));
        assert(chain_readable(links, f, g));
        let len = chain_length(links, f, g);
        lemma_one_length(
            links,
            f,
            len,
            b as nat,
            g.first_data_block as int,
            g.blocks as int,
            FAT_CHAIN_END as u16,
        );
        lemma_bare(s, g, area);
        lemma_gather_run(card, f, b, BLOCK as int);
        assert(save_at(card, g, i) =~= written_save(s, g, i));
    }
}

/// The saves of a written card's first `k` slots.
proof fn lemma_card_saves_written(s: Seq<SaveView>, g: Geometry, area: Option<Seq<u8>>, k: int)
    requires
        geometry_of(g.size as int) == Some(g),
        s.len() <= g.entries,
        fault(s, g, 0) is None,
        forall|j: int| 0 <= j < s.len() ==> entry_head(#[trigger] s[j]) != FREE_ENTRY,
        0 <= k <= g.entries,
    ensures
        saves_upto(bare_card(s, g, area), g, k) == Seq::new(
            if k < s.len() { k as nat } else { s.len() },
            |i: int| written_save(s, g, i),
        ),
    decreases k,
{
    if k > 0 {
        lemma_card_saves_written(s, g, area, k - 1);
        lemma_card_slot_reads_back(s, g, area, k - 1);
        let prev = Seq::new(if k - 1 < s.len() { (k - 1) as nat } else { s.len() }, |i: int| written_save(s, g, i));
        let cur = Seq::new(if k < s.len() { k as nat } else { s.len() }, |i: int| written_save(s, g, i));
        if k - 1 < s.len() {
            assert(cur =~= prev.push(written_save(s, g, k - 1)));
        } else {
            assert(cur =~= prev);
        }
    }
}

/// What a bare card is written as reads back as that card, when the base it was written over
/// carries the signature and states the card's size: a bare card of that layout, whose table
/// agrees with the layout, with every entry's chain readable; and its saves are the ones added,
/// in the order they were added, each in the slot it was added at, with the entry it was written
/// with and its bytes followed by the erased pattern to the end of its last block. An entry whose
/// first byte is the free mark reads as free, so none here is.
pub proof fn lemma_a_written_card_reads_back(s: Seq<SaveView>, g: Geometry, area: Option<Seq<u8>>)
    requires
        geometry_of(g.size as int) == Some(g),
        s.len() <= g.entries,
        fault(s, g, 0) is None,
        forall|j: int| 0 <= j < s.len() ==> entry_head(#[trigger] s[j]) != FREE_ENTRY,
        has_magic_spec(base_card(g, area)),
        be16(base_card(g, area), SIZE_OFFSET as int) == g.size * 2,
    ensures
        stripped(bare_card(s, g, area)) == Some((Container::Bare, bare_card(s, g, area), None::<Seq<u8>>)),
        stated_geometry(bare_card(s, g, area)) == Some(g),
        card_of(bare_card(s, g, area)) == bare_card(s, g, area),
        stated_reserved(bare_card(s, g, area)) == g.first_data_block,
        directory_readable(bare_card(s, g, area), g),
        saves_upto(bare_card(s, g, area), g, g.entries as int) == Seq::new(
            s.len(),
            |i: int| written_save(s, g, i),
        ),
{
    let card = bare_card(s, g, area);
    lemma_geometry_fits(g.size as int);
    lemma_bare(s, g, area);
    lemma_base(g, area);
    let base = base_card(g, area);
    assert forall|i: int| 0 <= i < 8 implies #[trigger] card[MAGIC_OFFSET + i * 2] == magic_byte(i) by {
        lemma_header_kept(s, g, area, MAGIC_OFFSET + i * 2);
        assert(base[MAGIC_OFFSET + i * 2] == magic_byte(i));
    }
    assert(has_magic_spec(card));
    lemma_header_kept(s, g, area, SIZE_OFFSET as int);
    lemma_header_kept(s, g, area, SIZE_OFFSET + 1);
    assert(be16(card, SIZE_OFFSET as int) == g.size * 2);
    lemma_size_word_round_trips(g.size as int);
    assert(stated_geometry(card) == Some(g));
    assert(card.take(g.size as int) =~= card);
    lemma_fat_table(s, g);
    if s.len() > 0 {
        lemma_save_chain(s, g, area, 0);
    } else {
        assert forall|y: int| 0 <= y < g.blocks implies #[trigger] fat_of(card, g)[y] == fat_table(s, g)[y] by {
            assert(fat_of(card, g)[y] == card[g.fat1_block * BLOCK + y]);
        }
        assert(fat_of(card, g) =~= fat_table(s, g));
    }
    lemma_reserved_run(fat_table(s, g), 0, g.first_data_block as int);
    assert forall|index: int|
        0 <= index < g.entries && (#[trigger] entry_at(card, g, index))[0] != FREE_ENTRY implies chain_readable(
        fat_links(fat_of(card, g)),
        entry_at(card, g, index)[3] as int,
        g,
    ) by {
        lemma_card_slot_reads_back(s, g, area, index);
    }
    lemma_card_saves_written(s, g, area, g.entries as int);
}

/// A freshly formatted card carries the signature and states its own size.
pub proof fn lemma_a_fresh_card_is_signed(g: Geometry)
    requires
        geometry_of(g.size as int) == Some(g),
    ensures
        has_magic_spec(base_card(g, None)),
        be16(base_card(g, None), SIZE_OFFSET as int) == g.size * 2,
{
    lemma_geometry_fits(g.size as int);
    let erased = erased_card(g.size as int);
    let sized = splice(erased, SIZE_OFFSET as int, be16_bytes(g.size * 2));
    lemma_splice(erased, SIZE_OFFSET as int, be16_bytes(g.size * 2));
    let signed = Seq::new(
        sized.len(),
        |i: int|
            if MAGIC_OFFSET <= i < MAGIC_OFFSET + 16 && (i - MAGIC_OFFSET) % 2 == 0 {
                magic_byte((i - MAGIC_OFFSET) / 2)
            } else {
                sized[i]
            },
    );
    lemma_splice(signed, USERNAME_OFFSET as int, Seq::new(16, |i: int| 0x20u8));
    let f = base_card(g, None);
    assert(f == splice(signed, USERNAME_OFFSET as int, Seq::new(16, |i: int| 0x20u8)));
    assert forall|i: int| 0 <= i < 8 implies #[trigger] f[MAGIC_OFFSET + i * 2] == magic_byte(i) by {
        assert(f[MAGIC_OFFSET + i * 2] == signed[MAGIC_OFFSET + i * 2]);
        assert((MAGIC_OFFSET + i * 2 - MAGIC_OFFSET) / 2 == i);
    }
}

/// What the MiSTer core keeps in front of the card: the backup RAM given, when it is the right
/// length, and erased bytes otherwise.
pub open spec fn ram_front(ram: Option<Seq<u8>>) -> Seq<u8> {
    match ram {
        Some(r) => if r.len() == MISTER_BACKUP_RAM {
            r
        } else {
            Seq::new(MISTER_BACKUP_RAM as nat, |i: int| 0xFFu8)
        },
        None => Seq::new(MISTER_BACKUP_RAM as nat, |i: int| 0xFFu8),
    }
}

/// Swapping the two bytes of every word twice gives back what was swapped.
pub proof fn lemma_words_swap_back(region: Seq<u8>)
    requires
        region.len() % 2 == 0,
    ensures
        word_swapped(word_swapped(region)) == region,
{
    let once = word_swapped(region);
    assert(once.len() == region.len());
    assert forall|i: int| 0 <= i < region.len() implies #[trigger] word_swapped(once)[i] == region[i] by {
        if i % 2 == 0 {
            assert(word_swapped(once)[i] == once[i + 1]);
            assert((i + 1) % 2 == 1);
        } else {
            assert(word_swapped(once)[i] == once[i - 1]);
            assert((i - 1) % 2 == 0);
        }
    }
    assert(word_swapped(once) =~= region);
}

/// What a card is written as in a MiSTer save reads back as that container: the card, erased
/// bytes to the end of the core's region, and the backup RAM in front.
pub proof fn lemma_a_written_mister_save_reads_back(card: Seq<u8>, ram: Option<Seq<u8>>)
    requires
        card.len() <= MISTER_CARD_REGION,
        has_magic_spec(card),
    ensures
        stripped(in_container(card, Container::MiSter, ram)) == Some(
            (
                Container::MiSter,
                card + Seq::new((MISTER_CARD_REGION - card.len()) as nat, |i: int| 0xFFu8),
                Some(ram_front(ram)),
            ),
        ),
{
    let region = card + Seq::new((MISTER_CARD_REGION - card.len()) as nat, |i: int| 0xFFu8);
    let out = in_container(card, Container::MiSter, ram);
    let front = ram_front(ram);
    assert(out == front + word_swapped(region));
    lemma_words_swap_back(region);
    assert(out.skip(MISTER_BACKUP_RAM as int) =~= word_swapped(region));
    assert(out.take(MISTER_BACKUP_RAM as int) =~= front);
    assert forall|i: int| 0 <= i < 8 implies #[trigger] region[MAGIC_OFFSET + i * 2] == magic_byte(i) by {
        assert(region[MAGIC_OFFSET + i * 2] == card[MAGIC_OFFSET + i * 2]);
    }
    assert(has_magic_spec(region));
}

} // verus!
