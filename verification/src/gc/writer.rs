//! Writing a card image out of a set of saves.
//!
//! The directory, the allocation table, both their mirrors and every checksum are regenerated.
//! Only a save entry's first block and block count are rewritten; the rest of it is the game's and
//! comes through unchanged.

use vstd::prelude::*;
use vstd::utf8::encode_utf8;
use crate::bytes::{
    be16, be16_bytes, be16_words, ceil_div, lemma_be16_words, push_all, push_repeated, push_words, units_of, zeros,
};
use crate::chain::{
    chain_ends, chain_seq, gather_blocks, holds_run, lemma_gather_run, lemma_run_is_chained, push_repeated_links, push_run,
    run_links,
};
use crate::text::{ascii_text, graphic_only, lossy_utf8, until_nul_spec};
use crate::gc::{
    block_of, card_shaped, chosen_directory, chosen_table, directory_choice, directory_readable, directory_valid,
    entry_at, entry_free, entry_readable, lemma_stamped_directory_is_valid, lemma_stamped_directory_prefix, lemma_stamped_table_is_valid, save_at,
    saves_upto, table_choice, table_links, table_valid, BAT_BLOCK, BAT_MIRROR_BLOCK, DIR_BLOCK, DIR_MIRROR_BLOCK,
    MAP_OFFSET,
    checksum, checksum_spec, known_size, save_views, stamp_directory_checksum, stamp_table_checksum,
    stamped_directory, stamped_table, Error, Save, SaveView, BLOCK, CHAIN_END, ENTRY_LEN, MAX_ENTRIES,
    RESERVED_BLOCKS,
};

verus! {

/// `n` bytes of `0xFF`, which is what erased flash reads as.
pub open spec fn erased(n: int) -> Seq<u8> {
    Seq::new(n as nat, |i: int| 0xFFu8)
}

/// How many blocks a save occupies: its bytes, rounded up to whole blocks.
pub open spec fn blocks_of(v: SaveView) -> int {
    units_of(v.data.len() as int, BLOCK as int)
}

/// The blocks the first `k` saves take together.
pub open spec fn blocks_before(s: Seq<SaveView>, k: int) -> int
    decreases k,
{
    if k <= 0 {
        0
    } else {
        blocks_before(s, k - 1) + blocks_of(s[k - 1])
    }
}

/// The smallest card a number of blocks of saves fits on, in blocks.
pub open spec fn smallest_fit(needed: int) -> Option<int> {
    if needed <= 64 - RESERVED_BLOCKS {
        Some(64)
    } else if needed <= 128 - RESERVED_BLOCKS {
        Some(128)
    } else if needed <= 256 - RESERVED_BLOCKS {
        Some(256)
    } else if needed <= 512 - RESERVED_BLOCKS {
        Some(512)
    } else if needed <= 1024 - RESERVED_BLOCKS {
        Some(1024)
    } else if needed <= 2048 - RESERVED_BLOCKS {
        Some(2048)
    } else {
        None
    }
}

/// The card a set of saves is written to is the smallest the console formats that holds them:
/// one of 64, 128, 256, 512, 1024 or 2048 blocks, five of which go to the header, the directory,
/// the allocation table and their mirrors, with no smaller such size that holds them; and there is
/// none only when the saves need more than the 2043 blocks of the largest. A stated data capacity
/// of one of those sizes, less its five system blocks, is the size written.
pub proof fn lemma_the_smallest_card_that_holds_them(needed: int, capacity: usize)
    ensures
        match smallest_fit(needed) {
            Some(b) => {
                &&& b == 64 || b == 128 || b == 256 || b == 512 || b == 1024 || b == 2048
                &&& needed <= b - 5
                &&& b > 64 ==> needed > 64 - 5
                &&& b > 128 ==> needed > 128 - 5
                &&& b > 256 ==> needed > 256 - 5
                &&& b > 512 ==> needed > 512 - 5
                &&& b > 1024 ==> needed > 1024 - 5
            },
            None => needed > 2043,
        },
        capacity % 8192 == 0 && (capacity == 59 * 8192 || capacity == 123 * 8192 || capacity == 251
            * 8192 || capacity == 507 * 8192 || capacity == 1019 * 8192 || capacity == 2043 * 8192)
            ==> chosen_blocks(Some(capacity), needed) == Some(capacity as int / 8192 + 5),
{
}

/// The card size written, in blocks: the one a stated data capacity names when cards come in it,
/// otherwise the smallest the saves fit on.
pub open spec fn chosen_blocks(capacity: Option<usize>, needed: int) -> Option<int> {
    match capacity {
        Some(c) => if known_size(c / BLOCK + RESERVED_BLOCKS) {
            Some(c / BLOCK + RESERVED_BLOCKS)
        } else {
            smallest_fit(needed)
        },
        None => smallest_fit(needed),
    }
}

/// A save's bytes, its last block filled out with erased bytes.
pub open spec fn padded(v: SaveView) -> Seq<u8> {
    v.data + erased(blocks_of(v) * BLOCK - v.data.len())
}

/// The blocks of the first `k` saves, in order.
pub open spec fn data_area(s: Seq<SaveView>, k: int) -> Seq<u8>
    decreases k,
{
    if k <= 0 {
        Seq::empty()
    } else {
        data_area(s, k - 1) + padded(s[k - 1])
    }
}

/// The allocation map entries of the first `k` saves' chains.
pub open spec fn save_links(s: Seq<SaveView>, k: int) -> Seq<u16>
    decreases k,
{
    if k <= 0 {
        Seq::empty()
    } else {
        save_links(s, k - 1) + run_links(RESERVED_BLOCKS + blocks_before(s, k - 1), blocks_of(s[k - 1]), CHAIN_END)
    }
}

/// The entry a save built by hand gets: its codes, with `-` for what it did not state, and its
/// filename, as far as each field goes.
pub open spec fn hand_entry(v: SaveView) -> Seq<u8> {
    let code = encode_utf8(v.game_code);
    let maker = encode_utf8(v.maker_code);
    let name = encode_utf8(v.filename);
    let lc = if code.len() < 4 { code.len() as int } else { 4 };
    let lm = if maker.len() < 2 { maker.len() as int } else { 2 };
    let ln = if name.len() < 32 { name.len() as int } else { 32 };
    code.take(lc) + Seq::new((4 - lc) as nat, |i: int| 0x2Du8) + maker.take(lm) + Seq::new(
        (2 - lm) as nat,
        |i: int| 0x2Du8,
    ) + seq![0xFFu8, 0u8] + name.take(ln) + zeros(32 - ln) + zeros(0x3A - 40) + seq![0xFFu8, 0xFFu8]
        + zeros(ENTRY_LEN - 0x3C)
}

/// The entry a save brings, cut or padded to an entry's length.
pub open spec fn entry_base(v: SaveView) -> Seq<u8> {
    let e = if v.dirent.len() > 0 { v.dirent } else { hand_entry(v) };
    if e.len() >= ENTRY_LEN {
        e.take(ENTRY_LEN as int)
    } else {
        e + zeros(ENTRY_LEN - e.len())
    }
}

/// The directory entry save `i` is written with: its own, with its first block and block count
/// rewritten.
pub open spec fn entry_of(s: Seq<SaveView>, i: int) -> Seq<u8> {
    let first = be16_bytes(RESERVED_BLOCKS + blocks_before(s, i));
    let count = be16_bytes(blocks_of(s[i]));
    entry_base(s[i]).update(0x36, first[0]).update(0x37, first[1]).update(0x38, count[0]).update(
        0x39,
        count[1],
    )
}

/// The first `k` directory slots: each save's entry, then erased entries.
pub open spec fn directory_entries(s: Seq<SaveView>, k: int) -> Seq<u8>
    decreases k,
{
    if k <= 0 {
        Seq::empty()
    } else {
        directory_entries(s, k - 1) + if k - 1 < s.len() {
            entry_of(s, k - 1)
        } else {
            erased(ENTRY_LEN as int)
        }
    }
}

/// Every slot is an entry long.
proof fn lemma_directory_entries_len(s: Seq<SaveView>, k: int)
    requires
        k >= 0,
    ensures
        directory_entries(s, k).len() == k * ENTRY_LEN,
    decreases k,
{
    if k > 0 {
        lemma_directory_entries_len(s, k - 1);
    }
}

/// The directory block: every entry, erased bytes after them, a zero update counter, and the
/// checksum pair.
pub open spec fn directory_block(s: Seq<SaveView>) -> Seq<u8> {
    stamped_directory(
        directory_entries(s, MAX_ENTRIES as int) + erased(BLOCK - 6 - MAX_ENTRIES * ENTRY_LEN) + seq![0u8, 0u8]
            + erased(4),
    )
}

/// The allocation table block of a card of `blocks` blocks: a zero update counter, how many
/// blocks are free, the last one handed out, then the map, with every block no save took free.
pub open spec fn table_block(s: Seq<SaveView>, blocks: int) -> Seq<u8> {
    let used = blocks_before(s, s.len() as int);
    let map = save_links(s, s.len() as int) + Seq::new((blocks - RESERVED_BLOCKS - used) as nat, |i: int| 0u16);
    stamped_table(
        zeros(4) + be16_bytes(0) + be16_bytes(blocks - RESERVED_BLOCKS - used) + be16_bytes(
            RESERVED_BLOCKS + used - 1,
        ) + be16_words(map) + zeros(BLOCK - 10 - 2 * (blocks - RESERVED_BLOCKS)),
    )
}

/// A freshly formatted header block for a card of `blocks` blocks: erased, with its size in
/// megabits, ASCII as its encoding, and the checksum pair over its first `0x1FC` bytes.
pub open spec fn default_header(blocks: int) -> Seq<u8> {
    let base = erased(0x20) + be16_bytes(blocks / 16) + seq![0u8, 0u8] + erased(0x1FC - 0x24);
    let (sum, inverse) = checksum_spec(base);
    base + be16_bytes(sum as int) + be16_bytes(inverse as int) + erased(BLOCK - 0x200)
}

/// The header written: the one given when it is a block long, a fresh one otherwise.
pub open spec fn header_of(header: Option<Seq<u8>>, blocks: int) -> Seq<u8> {
    match header {
        Some(h) => if h.len() == BLOCK {
            h
        } else {
            default_header(blocks)
        },
        None => default_header(blocks),
    }
}

/// The image a set of saves is written as on a card of `blocks` blocks: the header, the
/// directory and its mirror, the table and its mirror, then the saves and erased blocks.
pub open spec fn card_image(s: Seq<SaveView>, header: Option<Seq<u8>>, blocks: int) -> Seq<u8> {
    header_of(header, blocks) + directory_block(s) + directory_block(s) + table_block(s, blocks)
        + table_block(s, blocks) + data_area(s, s.len() as int) + erased(
        (blocks - RESERVED_BLOCKS - blocks_before(s, s.len() as int)) * BLOCK,
    )
}

/// Builds a card image from saves.
#[derive(Debug, Clone)]
pub struct CardBuilder {
    saves: Vec<Save>,
    header: Option<Vec<u8>>,
    capacity: Option<usize>,
}

/// What a builder holds, as values.
pub struct CardBuilderView {
    pub saves: Seq<SaveView>,
    pub header: Option<Seq<u8>>,
    pub capacity: Option<usize>,
}

impl View for CardBuilder {
    type V = CardBuilderView;

    closed spec fn view(&self) -> CardBuilderView {
        CardBuilderView {
            saves: save_views(self.saves@),
            header: match self.header {
                Some(h) => Some(h@),
                None => None,
            },
            capacity: self.capacity,
        }
    }
}

impl Default for CardBuilder {
    /// A builder for an empty card, sized to whatever the saves need.
    fn default() -> (r: Self)
        ensures
            r@.saves == Seq::<SaveView>::empty(),
            r@.header is None,
            r@.capacity is None,
    {
        let r = CardBuilder { saves: Vec::new(), header: None, capacity: None };
        assert(r@.saves =~= Seq::<SaveView>::empty());
        r
    }
}

/// Appends a 16-bit value big-endian.
fn push_be16(out: &mut Vec<u8>, v: u16)
    ensures
        final(out)@ == old(out)@ + be16_bytes(v as int),
{
    out.push((v / 0x100) as u8);
    out.push((v % 0x100) as u8);
    assert(final(out)@ =~= old(out)@ + be16_bytes(v as int));
}

/// The width of a field a text is cut to.
pub open spec fn cut(text: Seq<char>, width: int) -> int {
    if encode_utf8(text).len() < width {
        encode_utf8(text).len() as int
    } else {
        width
    }
}

/// A code field: as much of the text as fits, then dashes.
fn push_code(out: &mut Vec<u8>, text: &str, width: usize)
    ensures
        final(out)@ == old(out)@ + encode_utf8(text@).take(cut(text@, width as int)) + Seq::new(
            (width - cut(text@, width as int)) as nat,
            |i: int| 0x2Du8,
        ),
{
    let bytes = text.as_bytes();
    let len = if bytes.len() < width {
        bytes.len()
    } else {
        width
    };
    push_all(out, &bytes[0..len]);
    push_repeated(out, 0x2D, width - len);
    assert(bytes@.subrange(0, len as int) =~= encode_utf8(text@).take(len as int));
}

/// The entry a save brings, cut or padded to an entry's length.
fn base_entry(save: &Save) -> (r: Vec<u8>)
    ensures
        r@ == entry_base(save@),
{
    let mut e: Vec<u8> = Vec::new();
    if save.dirent.len() > 0 {
        push_all(&mut e, save.dirent.as_slice());
    } else {
        push_code(&mut e, save.game_code.as_str(), 4);
        push_code(&mut e, save.maker_code.as_str(), 2);
        e.push(0xFF);
        e.push(0);
        let name = save.filename.as_str().as_bytes();
        let len = if name.len() < 32 {
            name.len()
        } else {
            32
        };
        push_all(&mut e, &name[0..len]);
        push_repeated(&mut e, 0, 32 - len);
        push_repeated(&mut e, 0, 0x3A - 40);
        e.push(0xFF);
        e.push(0xFF);
        push_repeated(&mut e, 0, ENTRY_LEN - 0x3C);
        proof {
            assert(name@.subrange(0, len as int) =~= encode_utf8(save@.filename).take(len as int));
            assert(e@ =~= hand_entry(save@));
        }
    }
    let ghost brought = e@;
    if e.len() >= ENTRY_LEN {
        e.truncate(ENTRY_LEN);
        assert(e@ =~= brought.take(ENTRY_LEN as int));
    } else {
        let missing = ENTRY_LEN - e.len();
        push_repeated(&mut e, 0, missing);
        assert(e@ =~= brought + zeros(ENTRY_LEN - brought.len()));
    }
    e
}

/// The smallest card a number of blocks of saves fits on.
fn smallest_card(needed: usize) -> (r: Option<usize>)
    ensures
        match smallest_fit(needed as int) {
            Some(b) => r == Some(b as usize),
            None => r is None,
        },
{
    if needed <= 64 - RESERVED_BLOCKS {
        Some(64)
    } else if needed <= 128 - RESERVED_BLOCKS {
        Some(128)
    } else if needed <= 256 - RESERVED_BLOCKS {
        Some(256)
    } else if needed <= 512 - RESERVED_BLOCKS {
        Some(512)
    } else if needed <= 1024 - RESERVED_BLOCKS {
        Some(1024)
    } else if needed <= 2048 - RESERVED_BLOCKS {
        Some(2048)
    } else {
        None
    }
}

/// The blocks of the saves before any save are never more than those before a later one.
proof fn lemma_blocks_before_grow(s: Seq<SaveView>, i: int, j: int)
    requires
        0 <= i <= j <= s.len(),
    ensures
        0 <= blocks_before(s, i) <= blocks_before(s, j),
    decreases j,
{
    if i < j {
        lemma_blocks_before_grow(s, i, j - 1);
    } else if i > 0 {
        lemma_blocks_before_grow(s, i - 1, i - 1);
    }
}

/// A freshly formatted header block.
fn fresh_header(blocks: usize) -> (r: Vec<u8>)
    requires
        blocks <= 2048,
    ensures
        r@ == default_header(blocks as int),
{
    let mut header: Vec<u8> = Vec::new();
    push_repeated(&mut header, 0xFF, 0x20);
    push_be16(&mut header, (blocks / 16) as u16);
    header.push(0);
    header.push(0);
    push_repeated(&mut header, 0xFF, 0x1FC - 0x24);
    let ghost base = header@;
    let (sum, inverse) = checksum(header.as_slice());
    push_be16(&mut header, sum);
    push_be16(&mut header, inverse);
    push_repeated(&mut header, 0xFF, BLOCK - 0x200);
    proof {
        assert(base =~= erased(0x20) + be16_bytes(blocks as int / 16) + seq![0u8, 0u8] + erased(0x1FC - 0x24));
        assert(header@ =~= default_header(blocks as int));
    }
    header
}

/// Whether a card of this many blocks is one the console formats.
fn is_known_size(blocks: usize) -> (r: bool)
    ensures
        r == known_size(blocks as int),
{
    blocks == 64 || blocks == 128 || blocks == 256 || blocks == 512 || blocks == 1024 || blocks == 2048
}

impl CardBuilder {
    /// A builder for an empty card, sized to whatever the saves need.
    pub fn new() -> (r: Self)
        ensures
            r@.saves == Seq::<SaveView>::empty(),
            r@.header is None,
            r@.capacity is None,
    {
        Self::default()
    }

    /// Keeps a header block read off another card, so the card's flash serial survives.
    ///
    /// A block that is not [`BLOCK`] bytes is ignored when the card is written, since it is not a
    /// header block.
    pub fn header_block(&mut self, bytes: Vec<u8>) -> (r: &mut Self)
        ensures
            r@.saves == old(self)@.saves,
            r@.header == Some(bytes@),
            r@.capacity == old(self)@.capacity,
            final(self)@ == final(r)@,
    {
        self.header = Some(bytes);
        self
    }

    /// Asks for a card of this **data** capacity in bytes, as a parsed card reports it.
    ///
    /// A capacity no card comes in is ignored rather than honoured: a console would not accept
    /// one. Without this the smallest card the saves fit on is used.
    pub fn capacity(&mut self, bytes: usize) -> (r: &mut Self)
        ensures
            r@.saves == old(self)@.saves,
            r@.header == old(self)@.header,
            r@.capacity == Some(bytes),
            final(self)@ == final(r)@,
    {
        self.capacity = Some(bytes);
        self
    }

    /// Adds a save. Its `slot` is ignored: the directory is filled in the order saves are added.
    pub fn add(&mut self, save: Save) -> (r: &mut Self)
        ensures
            r@.saves == old(self)@.saves.push(save@),
            r@.header == old(self)@.header,
            r@.capacity == old(self)@.capacity,
            final(self)@ == final(r)@,
    {
        self.saves.push(save);
        proof {
            assert(save_views(self.saves@) =~= save_views(old(self).saves@).push(save@));
        }
        self
    }

    /// Writes the card out.
    ///
    /// The card is the size a stated capacity names when cards come in it, and otherwise the
    /// smallest the saves fit on. Saves are placed in the order they were added, from block 5.
    pub fn build(&self) -> (r: Result<Vec<u8>, Error>)
        ensures
            self@.saves.len() > MAX_ENTRIES ==> (r matches Err(Error::TooManySaves { given, available })
                && given == self@.saves.len() && available == MAX_ENTRIES),
            self@.saves.len() <= MAX_ENTRIES ==> match chosen_blocks(
                self@.capacity,
                blocks_before(self@.saves, self@.saves.len() as int),
            ) {
                None => r matches Err(Error::Full { needed, available }) && needed == blocks_before(
                    self@.saves,
                    self@.saves.len() as int,
                ) && available == 2048 - RESERVED_BLOCKS,
                Some(blocks) => if blocks_before(self@.saves, self@.saves.len() as int) > blocks
                    - RESERVED_BLOCKS {
                    r matches Err(Error::Full { needed, available }) && needed == blocks_before(
                        self@.saves,
                        self@.saves.len() as int,
                    ) && available == blocks - RESERVED_BLOCKS
                } else {
                    r matches Ok(image) && image@ == card_image(self@.saves, self@.header, blocks)
                },
            },
    {
        let ghost s = save_views(self.saves@);
        let n = self.saves.len();
        if n > MAX_ENTRIES {
            return Err(Error::TooManySaves { given: n, available: MAX_ENTRIES });
        }
        let ghost m: int = usize::MAX as int / BLOCK as int + 1;
        let mut needed: usize = 0;
        let mut i: usize = 0;
        while i < n
            invariant
                s == save_views(self.saves@),
                n == s.len(),
                n <= MAX_ENTRIES,
                i <= n,
                m == usize::MAX as int / BLOCK as int + 1,
                needed == blocks_before(s, i as int),
                needed <= i * m,
            decreases n - i,
        {
            assert(self.saves@[i as int]@ == s[i as int]);
            let b = ceil_div(self.saves[i].data.len(), BLOCK);
            proof {
                assert(b <= m);
                assert(needed + b <= (i + 1) * m) by (nonlinear_arith)
                    requires
                        needed <= i * m,
                        b <= m,
                ;
                assert((i + 1) * m <= 128 * m) by (nonlinear_arith)
                    requires
                        i + 1 <= 128,
                        m >= 0,
                ;
            }
            needed = needed + b;
            i = i + 1;
        }
        let stated: Option<usize> = match self.capacity {
            Some(c) => {
                let b = c / BLOCK + RESERVED_BLOCKS;
                if is_known_size(b) {
                    Some(b)
                } else {
                    None
                }
            },
            None => None,
        };
        let blocks = match stated {
            Some(b) => b,
            None => match smallest_card(needed) {
                Some(b) => b,
                None => {
                    return Err(Error::Full { needed, available: 2048 - RESERVED_BLOCKS });
                },
            },
        };
        if needed > blocks - RESERVED_BLOCKS {
            return Err(Error::Full { needed, available: blocks - RESERVED_BLOCKS });
        }
        // The saves' blocks and their chains, in the order they were added.
        let mut data: Vec<u8> = Vec::new();
        let mut links: Vec<u16> = Vec::new();
        let mut next: usize = RESERVED_BLOCKS;
        let mut i: usize = 0;
        while i < n
            invariant
                s == save_views(self.saves@),
                n == s.len(),
                i <= n,
                needed == blocks_before(s, n as int),
                needed <= blocks - RESERVED_BLOCKS,
                blocks <= 2048,
                next == RESERVED_BLOCKS + blocks_before(s, i as int),
                data@ == data_area(s, i as int),
                links@ == save_links(s, i as int),
            decreases n - i,
        {
            let save = &self.saves[i];
            assert(save@ == s[i as int]);
            proof {
                lemma_blocks_before_grow(s, i + 1, n as int);
                lemma_blocks_before_grow(s, i as int, i as int);
            }
            let len = save.data.len();
            let b = ceil_div(len, BLOCK);
            push_all(&mut data, save.data.as_slice());
            push_repeated(&mut data, 0xFF, b * BLOCK - len);
            push_run(&mut links, next, b, CHAIN_END);
            proof {
                assert(Seq::new((b * BLOCK - len) as nat, |k: int| 0xFFu8) =~= erased(
                    blocks_of(s[i as int]) * BLOCK - s[i as int].data.len(),
                ));
                assert(data@ =~= data_area(s, i + 1));
                assert(links@ =~= save_links(s, i + 1));
            }
            next = next + b;
            i = i + 1;
        }
        // The directory: every entry, erased bytes after them, the counter, then the checksum.
        let mut directory: Vec<u8> = Vec::new();
        let mut at: usize = RESERVED_BLOCKS;
        let mut slot: usize = 0;
        while slot < MAX_ENTRIES
            invariant
                s == save_views(self.saves@),
                n == s.len(),
                n <= MAX_ENTRIES,
                slot <= MAX_ENTRIES,
                needed == blocks_before(s, n as int),
                needed <= blocks - RESERVED_BLOCKS,
                blocks <= 2048,
                slot <= n ==> at == RESERVED_BLOCKS + blocks_before(s, slot as int),
                directory@ == directory_entries(s, slot as int),
            decreases MAX_ENTRIES - slot,
        {
            if slot < n {
                let save = &self.saves[slot];
                assert(save@ == s[slot as int]);
                proof {
                    lemma_blocks_before_grow(s, slot + 1, n as int);
                    lemma_blocks_before_grow(s, slot as int, slot as int);
                }
                let b = ceil_div(save.data.len(), BLOCK);
                let mut entry = base_entry(save);
                entry.set(0x36, (at / 0x100) as u8);
                entry.set(0x37, (at % 0x100) as u8);
                entry.set(0x38, (b / 0x100) as u8);
                entry.set(0x39, (b % 0x100) as u8);
                push_all(&mut directory, entry.as_slice());
                at = at + b;
            } else {
                push_repeated(&mut directory, 0xFF, ENTRY_LEN);
                assert(Seq::new(ENTRY_LEN as nat, |k: int| 0xFFu8) =~= erased(ENTRY_LEN as int));
            }
            slot = slot + 1;
        }
        proof {
            lemma_directory_entries_len(s, MAX_ENTRIES as int);
        }
        push_repeated(&mut directory, 0xFF, BLOCK - 6 - MAX_ENTRIES * ENTRY_LEN);
        directory.push(0);
        directory.push(0);
        push_repeated(&mut directory, 0xFF, 4);
        proof {
            assert(directory@ =~= directory_entries(s, MAX_ENTRIES as int) + erased(
                BLOCK - 6 - MAX_ENTRIES * ENTRY_LEN,
            ) + seq![0u8, 0u8] + erased(4));
        }
        stamp_directory_checksum(&mut directory);
        // The table: counter, free count, last block handed out, then the map.
        let mut table: Vec<u8> = Vec::new();
        push_repeated(&mut table, 0, 4);
        push_be16(&mut table, 0);
        push_be16(&mut table, (blocks - RESERVED_BLOCKS - needed) as u16);
        push_be16(&mut table, (RESERVED_BLOCKS + needed - 1) as u16);
        push_repeated_links(&mut links, 0, blocks - RESERVED_BLOCKS - needed);
        push_words(&mut table, links.as_slice(), true);
        push_repeated(&mut table, 0, BLOCK - 10 - 2 * (blocks - RESERVED_BLOCKS));
        proof {
            assert(Seq::new(4, |k: int| 0u8) =~= zeros(4));
            assert(table@ =~= zeros(4) + be16_bytes(0) + be16_bytes(blocks - RESERVED_BLOCKS - needed)
                + be16_bytes(RESERVED_BLOCKS + needed - 1) + be16_words(
                save_links(s, n as int) + Seq::new((blocks - RESERVED_BLOCKS - needed) as nat, |k: int| 0u16),
            ) + zeros(BLOCK - 10 - 2 * (blocks - RESERVED_BLOCKS)));
        }
        stamp_table_checksum(&mut table);
        // The card: header, directory twice, table twice, the saves, and erased blocks after.
        let mut image: Vec<u8> = Vec::new();
        match &self.header {
            Some(header) if header.len() == BLOCK => {
                push_all(&mut image, header.as_slice());
            },
            _ => {
                let header = fresh_header(blocks);
                push_all(&mut image, header.as_slice());
            },
        }
        push_all(&mut image, directory.as_slice());
        push_all(&mut image, directory.as_slice());
        push_all(&mut image, table.as_slice());
        push_all(&mut image, table.as_slice());
        push_all(&mut image, data.as_slice());
        push_repeated(&mut image, 0xFF, (blocks - RESERVED_BLOCKS - needed) * BLOCK);
        Ok(image)
    }
}

// ---------------------------------------------------------------------------------------------
// What is written reads back.

/// What save `i` reads back as: in the slot it was added at, with the entry it was written with,
/// the codes and filename that entry carries, and its bytes with the last block filled out.
pub open spec fn written_save(s: Seq<SaveView>, i: int) -> SaveView {
    let e = entry_of(s, i);
    SaveView {
        slot: i,
        game_code: ascii_text(graphic_only(e.subrange(0, 4))),
        maker_code: ascii_text(graphic_only(e.subrange(4, 6))),
        filename: lossy_utf8(until_nul_spec(e.subrange(8, 40))),
        dirent: e,
        data: padded(s[i]),
    }
}

/// A save's padded bytes are exactly its blocks long.
proof fn lemma_padded_len(v: SaveView)
    ensures
        blocks_of(v) >= 0,
        blocks_of(v) * BLOCK >= v.data.len(),
        padded(v).len() == blocks_of(v) * BLOCK,
{
}

/// The saves' blocks, laid end to end.
proof fn lemma_data_area(s: Seq<SaveView>, k: int)
    requires
        0 <= k <= s.len(),
    ensures
        data_area(s, k).len() == blocks_before(s, k) * BLOCK,
        forall|j: int|
            0 <= j < k ==> #[trigger] data_area(s, k).subrange(
                blocks_before(s, j) * BLOCK,
                (blocks_before(s, j) + blocks_of(s[j])) * BLOCK,
            ) == padded(s[j]),
    decreases k,
{
    if k > 0 {
        lemma_data_area(s, k - 1);
        lemma_padded_len(s[k - 1]);
        let prev = data_area(s, k - 1);
        let cur = data_area(s, k);
        assert(cur == prev + padded(s[k - 1]));
        assert forall|j: int| 0 <= j < k implies #[trigger] cur.subrange(
            blocks_before(s, j) * BLOCK,
            (blocks_before(s, j) + blocks_of(s[j])) * BLOCK,
        ) == padded(s[j]) by {
            lemma_padded_len(s[j]);
            lemma_blocks_before_grow(s, 0, j);
            if j < k - 1 {
                lemma_blocks_before_grow(s, j + 1, k - 1);
                assert(cur.subrange(blocks_before(s, j) * BLOCK, (blocks_before(s, j) + blocks_of(s[j])) * BLOCK)
                    =~= prev.subrange(blocks_before(s, j) * BLOCK, (blocks_before(s, j) + blocks_of(s[j])) * BLOCK));
            } else {
                assert(cur.subrange(blocks_before(s, j) * BLOCK, (blocks_before(s, j) + blocks_of(s[j])) * BLOCK)
                    =~= padded(s[j]));
            }
        }
    }
}

/// The saves' chains, laid end to end.
proof fn lemma_save_links(s: Seq<SaveView>, k: int)
    requires
        0 <= k <= s.len(),
    ensures
        save_links(s, k).len() == blocks_before(s, k),
        forall|j: int, m: int|
            0 <= j < k && 0 <= m < blocks_of(s[j]) ==> #[trigger] save_links(s, k)[blocks_before(s, j) + m]
                == #[trigger] run_links(RESERVED_BLOCKS + blocks_before(s, j), blocks_of(s[j]), CHAIN_END)[m],
    decreases k,
{
    if k > 0 {
        lemma_padded_len(s[k - 1]);
        lemma_blocks_before_grow(s, k - 1, k);
        lemma_save_links(s, k - 1);
        let prev = save_links(s, k - 1);
        let tail = run_links(RESERVED_BLOCKS + blocks_before(s, k - 1), blocks_of(s[k - 1]), CHAIN_END);
        let cur = save_links(s, k);
        assert(cur == prev + tail);
        assert forall|j: int, m: int| 0 <= j < k && 0 <= m < blocks_of(s[j]) implies #[trigger] cur[blocks_before(s, j)
            + m] == #[trigger] run_links(RESERVED_BLOCKS + blocks_before(s, j), blocks_of(s[j]), CHAIN_END)[m] by {
            lemma_padded_len(s[j]);
            lemma_blocks_before_grow(s, 0, j);
            if j < k - 1 {
                lemma_blocks_before_grow(s, j + 1, k - 1);
                assert(cur[blocks_before(s, j) + m] == prev[blocks_before(s, j) + m]);
            }
        }
    }
}

/// A directory's slots are an entry long each, holding each save's entry and then erased ones.
proof fn lemma_directory_entries(s: Seq<SaveView>, k: int)
    requires
        0 <= k,
    ensures
        directory_entries(s, k).len() == k * ENTRY_LEN,
        forall|e: int|
            0 <= e < k ==> #[trigger] directory_entries(s, k).subrange(e * ENTRY_LEN, e * ENTRY_LEN + ENTRY_LEN) == if e
                < s.len() {
                entry_of(s, e)
            } else {
                erased(ENTRY_LEN as int)
            },
    decreases k,
{
    if k > 0 {
        lemma_directory_entries(s, k - 1);
        if k - 1 < s.len() {
            let v = s[k - 1];
            assert(hand_entry(v).len() == ENTRY_LEN);
            assert(entry_base(v).len() == ENTRY_LEN);
        }
        let prev = directory_entries(s, k - 1);
        let cur = directory_entries(s, k);
        assert forall|e: int| 0 <= e < k implies #[trigger] cur.subrange(e * ENTRY_LEN, e * ENTRY_LEN + ENTRY_LEN)
            == if e < s.len() {
            entry_of(s, e)
        } else {
            erased(ENTRY_LEN as int)
        } by {
            if e < k - 1 {
                assert(cur.subrange(e * ENTRY_LEN, e * ENTRY_LEN + ENTRY_LEN) =~= prev.subrange(
                    e * ENTRY_LEN,
                    e * ENTRY_LEN + ENTRY_LEN,
                ));
            } else {
                assert(cur.subrange(e * ENTRY_LEN, e * ENTRY_LEN + ENTRY_LEN) =~= if e < s.len() {
                    entry_of(s, e)
                } else {
                    erased(ENTRY_LEN as int)
                });
            }
        }
    }
}

/// Where each part of a written card sits.
proof fn lemma_card_parts(s: Seq<SaveView>, header: Option<Seq<u8>>, blocks: int)
    requires
        known_size(blocks),
        blocks_before(s, s.len() as int) <= blocks - RESERVED_BLOCKS,
    ensures
        card_image(s, header, blocks).len() == blocks * BLOCK,
        directory_block(s).len() == BLOCK,
        table_block(s, blocks).len() == BLOCK,
        block_of(card_image(s, header, blocks), DIR_BLOCK as int) == directory_block(s),
        block_of(card_image(s, header, blocks), DIR_MIRROR_BLOCK as int) == directory_block(s),
        block_of(card_image(s, header, blocks), BAT_BLOCK as int) == table_block(s, blocks),
        block_of(card_image(s, header, blocks), BAT_MIRROR_BLOCK as int) == table_block(s, blocks),
        card_image(s, header, blocks).subrange(
            RESERVED_BLOCKS * BLOCK,
            (RESERVED_BLOCKS + blocks_before(s, s.len() as int)) * BLOCK,
        ) == data_area(s, s.len() as int),
{
    let n = s.len() as int;
    let used = blocks_before(s, n);
    lemma_blocks_before_grow(s, 0, n);
    lemma_data_area(s, n);
    lemma_save_links(s, n);
    lemma_directory_entries(s, MAX_ENTRIES as int);
    let map = save_links(s, n) + Seq::new((blocks - RESERVED_BLOCKS - used) as nat, |i: int| 0u16);
    lemma_be16_words(map);
    let h = header_of(header, blocks);
    let d = directory_block(s);
    let t = table_block(s, blocks);
    let a = data_area(s, n);
    let e = erased((blocks - RESERVED_BLOCKS - used) * BLOCK);
    assert(h.len() == BLOCK);
    let image = card_image(s, header, blocks);
    assert(image == h + d + d + t + t + a + e);
    assert(block_of(image, DIR_BLOCK as int) =~= d);
    assert(block_of(image, DIR_MIRROR_BLOCK as int) =~= d);
    assert(block_of(image, BAT_BLOCK as int) =~= t);
    assert(block_of(image, BAT_MIRROR_BLOCK as int) =~= t);
    assert(image.subrange(RESERVED_BLOCKS * BLOCK, (RESERVED_BLOCKS + used) * BLOCK) =~= a);
}

/// The directory and the table a written card is read through are the ones written.
proof fn lemma_choices(s: Seq<SaveView>, header: Option<Seq<u8>>, blocks: int)
    requires
        known_size(blocks),
        blocks_before(s, s.len() as int) <= blocks - RESERVED_BLOCKS,
    ensures
        directory_choice(card_image(s, header, blocks)) == Some(false),
        table_choice(card_image(s, header, blocks)) == Some(false),
        chosen_directory(card_image(s, header, blocks)) == directory_block(s),
        chosen_table(card_image(s, header, blocks)) == table_block(s, blocks),
{
    lemma_card_parts(s, header, blocks);
    let n = s.len() as int;
    let used = blocks_before(s, n);
    lemma_directory_entries(s, MAX_ENTRIES as int);
    let d0 = directory_entries(s, MAX_ENTRIES as int) + erased(BLOCK - 6 - MAX_ENTRIES * ENTRY_LEN) + seq![0u8, 0u8]
        + erased(4);
    lemma_stamped_directory_is_valid(d0);
    lemma_blocks_before_grow(s, 0, n);
    lemma_save_links(s, n);
    let map = save_links(s, n) + Seq::new((blocks - RESERVED_BLOCKS - used) as nat, |i: int| 0u16);
    lemma_be16_words(map);
    let t0 = zeros(4) + be16_bytes(0) + be16_bytes(blocks - RESERVED_BLOCKS - used) + be16_bytes(
        RESERVED_BLOCKS + used - 1,
    ) + be16_words(map) + zeros(BLOCK - 10 - 2 * (blocks - RESERVED_BLOCKS));
    lemma_stamped_table_is_valid(t0);
}

/// A written entry carries the first block and block count it was written with, and leaves the
/// codes a save brought alone.
proof fn lemma_entry_of(s: Seq<SaveView>, i: int)
    requires
        0 <= i < s.len(),
        0 <= RESERVED_BLOCKS + blocks_before(s, i) < 0x10000,
        0 <= blocks_of(s[i]) < 0x10000,
    ensures
        entry_of(s, i).len() == ENTRY_LEN,
        be16(entry_of(s, i), 0x36) == RESERVED_BLOCKS + blocks_before(s, i),
        be16(entry_of(s, i), 0x38) == blocks_of(s[i]),
        entry_free(entry_of(s, i)) == entry_free(entry_base(s[i])),
{
    assert(hand_entry(s[i]).len() == ENTRY_LEN);
    assert(entry_base(s[i]).len() == ENTRY_LEN);
}

/// The links a written card's table gives every block from the fifth on are the map it was
/// written with, and each save's run is chained in them.
proof fn lemma_table_links(s: Seq<SaveView>, blocks: int, i: int)
    requires
        known_size(blocks),
        blocks_before(s, s.len() as int) <= blocks - RESERVED_BLOCKS,
        0 <= i < s.len(),
    ensures
        holds_run(
            table_links(table_block(s, blocks), blocks),
            RESERVED_BLOCKS + blocks_before(s, i),
            blocks_of(s[i]),
            CHAIN_END,
        ),
{
    let n = s.len() as int;
    let used = blocks_before(s, n);
    lemma_blocks_before_grow(s, 0, n);
    lemma_blocks_before_grow(s, 0, i);
    lemma_blocks_before_grow(s, i + 1, n);
    lemma_padded_len(s[i]);
    lemma_save_links(s, n);
    let links = save_links(s, n);
    let map = links + Seq::new((blocks - RESERVED_BLOCKS - used) as nat, |k: int| 0u16);
    lemma_be16_words(map);
    let w = be16_words(map);
    let t0 = zeros(4) + be16_bytes(0) + be16_bytes(blocks - RESERVED_BLOCKS - used) + be16_bytes(
        RESERVED_BLOCKS + used - 1,
    ) + w + zeros(BLOCK - 10 - 2 * (blocks - RESERVED_BLOCKS));
    let t = table_block(s, blocks);
    assert(t == stamped_table(t0));
    let tl = table_links(t, blocks);
    let f = RESERVED_BLOCKS + blocks_before(s, i);
    let b = blocks_of(s[i]);
    assert forall|m: int| 0 <= m < b implies #[trigger] tl[f + m] == if m + 1 == b {
        CHAIN_END
    } else {
        (f + m + 1) as u16
    } by {
        let y = blocks_before(s, i) + m;
        assert(t[MAP_OFFSET + y * 2] == w[2 * y]);
        assert(t[MAP_OFFSET + y * 2 + 1] == w[2 * y + 1]);
        assert(be16(w, 2 * y) == map[y]);
        assert(map[y] == links[y]);
        assert(links[blocks_before(s, i) + m] == run_links(f, b, CHAIN_END)[m]);
    }
}

/// Each slot of a written card holds the entry written there: the save's, or an erased one.
#[verifier::spinoff_prover]
#[verifier::rlimit(40)]
proof fn lemma_card_entry(s: Seq<SaveView>, header: Option<Seq<u8>>, blocks: int, slot: int)
    requires
        known_size(blocks),
        blocks_before(s, s.len() as int) <= blocks - RESERVED_BLOCKS,
        0 <= slot < MAX_ENTRIES,
    ensures
        entry_at(chosen_directory(card_image(s, header, blocks)), slot) == if slot < s.len() {
            entry_of(s, slot)
        } else {
            erased(ENTRY_LEN as int)
        },
{
    lemma_choices(s, header, blocks);
    lemma_directory_entries(s, MAX_ENTRIES as int);
    let entries = directory_entries(s, MAX_ENTRIES as int);
    let d = directory_block(s);
    let d0 = entries + erased(BLOCK - 6 - MAX_ENTRIES * ENTRY_LEN) + seq![0u8, 0u8] + erased(4);
    assert(d == stamped_directory(d0));
    lemma_stamped_directory_prefix(d0);
    assert forall|y: int| 0 <= y < ENTRY_LEN implies #[trigger] entry_at(d, slot)[y] == entries[slot * ENTRY_LEN + y] by {
        assert(entry_at(d, slot)[y] == d[slot * ENTRY_LEN + y]);
        assert(d[slot * ENTRY_LEN + y] == d0[slot * ENTRY_LEN + y]);
    }
    assert(entry_at(d, slot) =~= entries.subrange(slot * ENTRY_LEN, slot * ENTRY_LEN + ENTRY_LEN));
}

/// A save's run on a written card is a readable chain through the table read, and its blocks hold
/// its padded bytes.
proof fn lemma_card_save(s: Seq<SaveView>, header: Option<Seq<u8>>, blocks: int, i: int)
    requires
        known_size(blocks),
        blocks_before(s, s.len() as int) <= blocks - RESERVED_BLOCKS,
        0 <= i < s.len(),
        blocks_of(s[i]) >= 1,
    ensures
        chain_ends(
            table_links(chosen_table(card_image(s, header, blocks)), blocks),
            RESERVED_BLOCKS + blocks_before(s, i),
            blocks_of(s[i]) as nat,
            RESERVED_BLOCKS as int,
            blocks,
            CHAIN_END,
        ),
        gather_blocks(
            card_image(s, header, blocks),
            chain_seq(
                table_links(chosen_table(card_image(s, header, blocks)), blocks),
                RESERVED_BLOCKS + blocks_before(s, i),
                blocks_of(s[i]) as nat,
            ),
            BLOCK as int,
        ) == padded(s[i]),
{
    let n = s.len() as int;
    let image = card_image(s, header, blocks);
    lemma_card_parts(s, header, blocks);
    lemma_choices(s, header, blocks);
    lemma_blocks_before_grow(s, 0, i);
    lemma_blocks_before_grow(s, i + 1, n);
    let f = RESERVED_BLOCKS + blocks_before(s, i);
    let b = blocks_of(s[i]);
    lemma_table_links(s, blocks, i);
    let tl = table_links(table_block(s, blocks), blocks);
    lemma_run_is_chained(tl, f, b, RESERVED_BLOCKS as int, blocks, CHAIN_END);
    lemma_data_area(s, n);
    lemma_padded_len(s[i]);
    lemma_gather_run(image, f, b, BLOCK as int);
    let a = data_area(s, n);
    assert(image.subrange(f * BLOCK, (f + b) * BLOCK) =~= a.subrange(
        blocks_before(s, i) * BLOCK,
        (blocks_before(s, i) + b) * BLOCK,
    ));
}

/// Each slot of a written card reads back: a save's slot as that save was written, any other as
/// free.
proof fn lemma_card_slot_reads_back(s: Seq<SaveView>, header: Option<Seq<u8>>, blocks: int, slot: int)
    requires
        s.len() <= MAX_ENTRIES,
        known_size(blocks),
        blocks_before(s, s.len() as int) <= blocks - RESERVED_BLOCKS,
        forall|i: int|
            0 <= i < s.len() ==> blocks_of(#[trigger] s[i]) >= 1 && !entry_free(entry_base(s[i])),
        0 <= slot < MAX_ENTRIES,
    ensures
        entry_readable(card_image(s, header, blocks), slot),
        slot < s.len() ==> !entry_free(entry_at(chosen_directory(card_image(s, header, blocks)), slot)) && save_at(
            card_image(s, header, blocks),
            slot,
        ) == written_save(s, slot),
        slot >= s.len() ==> entry_free(entry_at(chosen_directory(card_image(s, header, blocks)), slot)),
{
    let n = s.len() as int;
    let image = card_image(s, header, blocks);
    lemma_card_parts(s, header, blocks);
    lemma_card_entry(s, header, blocks, slot);
    assert(image.len() as int / (BLOCK as int) == blocks);
    if slot < n {
        lemma_blocks_before_grow(s, 0, slot);
        lemma_blocks_before_grow(s, slot + 1, n);
        lemma_entry_of(s, slot);
        lemma_card_save(s, header, blocks, slot);
        assert(save_at(image, slot) =~= written_save(s, slot));
    }
}

/// The saves of a written card's first `k` slots.
proof fn lemma_card_saves_written(s: Seq<SaveView>, header: Option<Seq<u8>>, blocks: int, k: int)
    requires
        s.len() <= MAX_ENTRIES,
        known_size(blocks),
        blocks_before(s, s.len() as int) <= blocks - RESERVED_BLOCKS,
        forall|i: int|
            0 <= i < s.len() ==> blocks_of(#[trigger] s[i]) >= 1 && !entry_free(entry_base(s[i])),
        0 <= k <= MAX_ENTRIES,
    ensures
        saves_upto(card_image(s, header, blocks), k) == Seq::new(
            if k < s.len() { k as nat } else { s.len() },
            |i: int| written_save(s, i),
        ),
    decreases k,
{
    if k > 0 {
        lemma_card_saves_written(s, header, blocks, k - 1);
        lemma_card_slot_reads_back(s, header, blocks, k - 1);
        let prev = Seq::new(if k - 1 < s.len() { (k - 1) as nat } else { s.len() }, |i: int| written_save(s, i));
        let cur = Seq::new(if k < s.len() { k as nat } else { s.len() }, |i: int| written_save(s, i));
        if k - 1 < s.len() {
            assert(cur =~= prev.push(written_save(s, k - 1)));
        } else {
            assert(cur =~= prev);
        }
    }
}

/// What a card is written as reads back as that card, on any size the console formats that the
/// saves fit on: the card is that size, both directories and both tables check and the ones
/// written are the ones read, every entry's chain is readable, and its saves are the ones added,
/// in the order they were added, each in the slot it was added at, with the entry it was written
/// with and its bytes with the last block filled out. A save must hold at least one byte, and the
/// entry it brings must not read as an erased one.
pub proof fn lemma_a_written_card_reads_back(s: Seq<SaveView>, header: Option<Seq<u8>>, blocks: int)
    requires
        s.len() <= MAX_ENTRIES,
        known_size(blocks),
        blocks_before(s, s.len() as int) <= blocks - RESERVED_BLOCKS,
        forall|i: int|
            0 <= i < s.len() ==> blocks_of(#[trigger] s[i]) >= 1 && !entry_free(entry_base(s[i])),
    ensures
        card_shaped(card_image(s, header, blocks).len() as int),
        directory_choice(card_image(s, header, blocks)) is Some,
        table_choice(card_image(s, header, blocks)) is Some,
        directory_readable(card_image(s, header, blocks)),
        saves_upto(card_image(s, header, blocks), MAX_ENTRIES as int) == Seq::new(
            s.len(),
            |i: int| written_save(s, i),
        ),
{
    let image = card_image(s, header, blocks);
    lemma_card_parts(s, header, blocks);
    lemma_choices(s, header, blocks);
    assert((blocks * BLOCK) % (BLOCK as int) == 0 && (blocks * BLOCK) / (BLOCK as int) == blocks);
    assert forall|slot: int| 0 <= slot < MAX_ENTRIES implies entry_readable(image, slot) by {
        lemma_card_slot_reads_back(s, header, blocks, slot);
    }
    lemma_card_saves_written(s, header, blocks, MAX_ENTRIES as int);
}

} // verus!
