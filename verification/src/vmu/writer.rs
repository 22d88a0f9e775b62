//! Writing a VMU image out of a set of saves.
//!
//! The allocation table and the directory are regenerated. Only an entry's first block, block
//! count and type byte are rewritten; its name and timestamp are the game's and come through
//! unchanged.

use vstd::prelude::*;
use vstd::utf8::encode_utf8;
use crate::bytes::{ceil_div, le16, le16_bytes, le16_words, lemma_le16_words, push_all, push_repeated, push_words, units_of, zeros};
use crate::chain::{
    chain_ends, chain_seq, gather_blocks, holds_run, lemma_gather_run, lemma_run_is_chained, push_repeated_links, push_run,
    run_links,
};
use crate::vmu::{
    directory_readable, entry_at, entry_blocks, entry_first, entry_offset_spec, entry_readable, fat_links,
    formatted, kind_byte, kind_of, lemma_kind_byte_round_trips, name_of, root_byte, save_at, save_views,
    saves_upto, Error, FileKind, Save, SaveView, BLOCK, BLOCKS, CHAIN_END, DIR_BLOCKS, DIR_FIRST_BLOCK,
    ENTRY_LEN, FAT_BLOCK, FREE, IMAGE_LEN, MAX_ENTRIES, ROOT_BLOCK, USER_BLOCKS,
};

verus! {

/// How many blocks a save occupies: its bytes, rounded up to whole blocks.
pub open spec fn blocks_of(v: SaveView) -> int {
    units_of(v.data.len() as int, BLOCK as int)
}

/// Whether a save is placed in the pass for mini-games (`games`) or in the pass for everything
/// else. A mini-game executes in place from flash, so mini-games are placed first, from block 0.
pub open spec fn in_pass(v: SaveView, games: bool) -> bool {
    (v.kind == FileKind::Game) == games
}

/// The blocks the saves of one pass take, among the first `k` saves.
pub open spec fn pass_blocks(s: Seq<SaveView>, games: bool, k: int) -> int
    decreases k,
{
    if k <= 0 {
        0
    } else {
        pass_blocks(s, games, k - 1) + if in_pass(s[k - 1], games) {
            blocks_of(s[k - 1])
        } else {
            0
        }
    }
}

/// The block save `i` starts at: mini-games in the order they were added, then the rest in the
/// order they were added, each run straight after the one before.
pub open spec fn first_block(s: Seq<SaveView>, i: int) -> int {
    if in_pass(s[i], true) {
        pass_blocks(s, true, i)
    } else {
        pass_blocks(s, true, s.len() as int) + pass_blocks(s, false, i)
    }
}

/// Why a set of saves cannot be written: a save with no bytes, or a run that needs more blocks
/// than a VMU has for saves.
pub enum Refusal {
    Empty(Seq<char>),
    Full(int),
}

/// The first save of one pass, from save `i` on, that cannot be placed after `start` blocks.
pub open spec fn pass_fault(s: Seq<SaveView>, games: bool, start: int, i: int) -> Option<Refusal>
    decreases s.len() - i,
{
    if i >= s.len() {
        None
    } else if !in_pass(s[i], games) {
        pass_fault(s, games, start, i + 1)
    } else if blocks_of(s[i]) == 0 {
        Some(Refusal::Empty(s[i].name))
    } else if start + pass_blocks(s, games, i) + blocks_of(s[i]) > USER_BLOCKS {
        Some(Refusal::Full(start + pass_blocks(s, games, i) + blocks_of(s[i])))
    } else {
        pass_fault(s, games, start, i + 1)
    }
}

/// The first save, in the order saves are placed, that cannot be.
pub open spec fn build_fault(s: Seq<SaveView>) -> Option<Refusal> {
    match pass_fault(s, true, 0, 0) {
        Some(f) => Some(f),
        None => pass_fault(s, false, pass_blocks(s, true, s.len() as int), 0),
    }
}

/// A save's bytes padded with zeros to its last block.
pub open spec fn padded(v: SaveView) -> Seq<u8> {
    v.data + zeros(blocks_of(v) * BLOCK - v.data.len())
}

/// The blocks of one pass's saves among the first `k`, in order.
pub open spec fn pass_area(s: Seq<SaveView>, games: bool, k: int) -> Seq<u8>
    decreases k,
{
    if k <= 0 {
        Seq::empty()
    } else {
        pass_area(s, games, k - 1) + if in_pass(s[k - 1], games) {
            padded(s[k - 1])
        } else {
            Seq::empty()
        }
    }
}

/// The allocation table entries of one pass's saves among the first `k`, the pass starting at
/// block `start`.
pub open spec fn pass_links(s: Seq<SaveView>, games: bool, start: int, k: int) -> Seq<u16>
    decreases k,
{
    if k <= 0 {
        Seq::empty()
    } else {
        pass_links(s, games, start, k - 1) + if in_pass(s[k - 1], games) {
            run_links(start + pass_blocks(s, games, k - 1), blocks_of(s[k - 1]), CHAIN_END)
        } else {
            Seq::empty()
        }
    }
}

/// How many blocks every save takes together.
pub open spec fn used_blocks(s: Seq<SaveView>) -> int {
    pass_blocks(s, true, s.len() as int) + pass_blocks(s, false, s.len() as int)
}

/// Blocks 0 up to the directory: the saves, then zeros.
pub open spec fn data_region(s: Seq<SaveView>) -> Seq<u8> {
    pass_area(s, true, s.len() as int) + pass_area(s, false, s.len() as int) + zeros(
        (DIR_FIRST_BLOCK + 1 - DIR_BLOCKS - used_blocks(s)) * BLOCK,
    )
}

/// The whole allocation table: the saves' chains, free blocks up to the last a save may take,
/// and the system blocks above that marked as ends.
pub open spec fn fat_table(s: Seq<SaveView>) -> Seq<u16> {
    pass_links(s, true, 0, s.len() as int) + pass_links(
        s,
        false,
        pass_blocks(s, true, s.len() as int),
        s.len() as int,
    ) + Seq::new((USER_BLOCKS - used_blocks(s)) as nat, |i: int| FREE) + Seq::new(
        (BLOCKS - USER_BLOCKS) as nat,
        |i: int| CHAIN_END,
    )
}

/// The entry a save built by hand gets: its name, as far as the twelve-byte field goes.
pub open spec fn name_entry(name: Seq<char>) -> Seq<u8> {
    let b = encode_utf8(name);
    let len = if b.len() < 12 { b.len() as int } else { 12 };
    zeros(4) + b.take(len) + zeros(28 - len)
}

/// The entry a save brings, cut or padded to an entry's length.
pub open spec fn entry_base(v: SaveView) -> Seq<u8> {
    let e = if v.dirent.len() > 0 { v.dirent } else { name_entry(v.name) };
    if e.len() >= ENTRY_LEN {
        e.take(ENTRY_LEN as int)
    } else {
        e + zeros(ENTRY_LEN - e.len())
    }
}

/// An entry with the type byte, the first block and the block count written over it.
pub open spec fn placed_entry(base: Seq<u8>, kind: u8, first: int, count: int) -> Seq<u8> {
    base.update(0, kind).update(2, le16_bytes(first)[0]).update(3, le16_bytes(first)[1]).update(
        0x18,
        le16_bytes(count)[0],
    ).update(0x19, le16_bytes(count)[1])
}

/// The directory entry save `i` is written with: its own, with the type byte, the first block and
/// the block count rewritten.
pub open spec fn entry_of(s: Seq<SaveView>, i: int) -> Seq<u8> {
    placed_entry(entry_base(s[i]), kind_byte(s[i].kind), first_block(s, i), blocks_of(s[i]))
}

/// What directory slot `index` holds: the entry of the save added at that index, or zeros.
pub open spec fn slot_bytes(s: Seq<SaveView>, index: int) -> Seq<u8> {
    if index < s.len() {
        entry_of(s, index)
    } else {
        zeros(ENTRY_LEN as int)
    }
}

/// The first `k` entries of directory block `block`, in address order.
pub open spec fn directory_run(s: Seq<SaveView>, block: int, k: int) -> Seq<u8>
    decreases k,
{
    if k <= 0 {
        Seq::empty()
    } else {
        directory_run(s, block, k - 1) + slot_bytes(s, (DIR_FIRST_BLOCK - block) * 16 + k - 1)
    }
}

/// The first `k` directory blocks, lowest address first. The directory grows downward, so the
/// last of these holds entries 0 to 15.
pub open spec fn directory_region(s: Seq<SaveView>, k: int) -> Seq<u8>
    decreases k,
{
    if k <= 0 {
        Seq::empty()
    } else {
        directory_region(s, k - 1) + directory_run(s, DIR_FIRST_BLOCK + 1 - DIR_BLOCKS + k - 1, 16)
    }
}

/// A freshly formatted root block: the format mark, then where the table and the directory live,
/// which the console reads rather than assumes.
pub open spec fn default_root() -> Seq<u8> {
    Seq::new(
        BLOCK as nat,
        |i: int|
            if i < 16 {
                0x55u8
            } else if i == 0x40 {
                FAT_BLOCK as u8
            } else if i == 0x42 {
                1u8
            } else if i == 0x44 {
                DIR_FIRST_BLOCK as u8
            } else if i == 0x46 {
                DIR_BLOCKS as u8
            } else if i == 0x4A {
                USER_BLOCKS as u8
            } else {
                0u8
            },
    )
}

/// The root block written: the one given when it is a block long, a fresh one otherwise.
pub open spec fn root_of(root: Option<Seq<u8>>) -> Seq<u8> {
    match root {
        Some(r) => if r.len() == BLOCK {
            r
        } else {
            default_root()
        },
        None => default_root(),
    }
}

/// The image a set of saves and a root block are written as.
pub open spec fn vmu_image(s: Seq<SaveView>, root: Option<Seq<u8>>) -> Seq<u8> {
    data_region(s) + directory_region(s, DIR_BLOCKS as int) + le16_words(fat_table(s)) + root_of(root)
}

/// One pass's blocks only grow.
proof fn lemma_pass_blocks_grow(s: Seq<SaveView>, games: bool, i: int, j: int)
    requires
        0 <= i <= j <= s.len(),
    ensures
        0 <= pass_blocks(s, games, i) <= pass_blocks(s, games, j),
    decreases j - i,
{
    if i < j {
        lemma_pass_blocks_grow(s, games, i, j - 1);
    } else {
        lemma_pass_blocks_nonnegative(s, games, i);
    }
}

/// One pass's blocks are never negative.
proof fn lemma_pass_blocks_nonnegative(s: Seq<SaveView>, games: bool, i: int)
    requires
        0 <= i <= s.len(),
    ensures
        0 <= pass_blocks(s, games, i),
    decreases i,
{
    if i > 0 {
        lemma_pass_blocks_nonnegative(s, games, i - 1);
    }
}

/// Places the saves of one pass, from block `start`: their bytes onto the image and their chains
/// onto the table, noting where each starts.
fn place_pass(
    saves: &Vec<Save>,
    games: bool,
    start: usize,
    image: &mut Vec<u8>,
    links: &mut Vec<u16>,
    firsts: &mut Vec<usize>,
) -> (r: Result<usize, Error>)
    requires
        start <= USER_BLOCKS,
        old(firsts)@.len() == saves@.len(),
    ensures
        match pass_fault(save_views(saves@), games, start as int, 0) {
            Some(Refusal::Empty(name)) => r matches Err(Error::EmptySave(n)) && n@ == name,
            Some(Refusal::Full(needed)) => r matches Err(Error::Full { needed: x, available: y }) && x
                == needed && y == USER_BLOCKS,
            None => {
                &&& r == Ok::<usize, Error>(
                    (start + pass_blocks(save_views(saves@), games, saves@.len() as int)) as usize,
                )
                &&& start + pass_blocks(save_views(saves@), games, saves@.len() as int) <= USER_BLOCKS
                &&& final(image)@ == old(image)@ + pass_area(save_views(saves@), games, saves@.len() as int)
                &&& final(links)@ == old(links)@ + pass_links(
                    save_views(saves@),
                    games,
                    start as int,
                    saves@.len() as int,
                )
                &&& final(firsts)@.len() == saves@.len()
                &&& forall|j: int|
                    0 <= j < saves@.len() ==> #[trigger] final(firsts)@[j] == if in_pass(
                        save_views(saves@)[j],
                        games,
                    ) {
                        start + pass_blocks(save_views(saves@), games, j)
                    } else {
                        old(firsts)@[j] as int
                    }
            },
        },
{
    let ghost s = save_views(saves@);
    let ghost image0 = image@;
    let ghost links0 = links@;
    let ghost firsts0 = firsts@;
    let n = saves.len();
    let mut next = start;
    let mut i: usize = 0;
    while i < n
        invariant
            s == save_views(saves@),
            n == s.len(),
            i <= n,
            next == start + pass_blocks(s, games, i as int),
            next <= USER_BLOCKS,
            start <= USER_BLOCKS,
            pass_fault(s, games, start as int, 0) == pass_fault(s, games, start as int, i as int),
            image@ == image0 + pass_area(s, games, i as int),
            links@ == links0 + pass_links(s, games, start as int, i as int),
            firsts@.len() == n,
            firsts0.len() == n,
            forall|j: int|
                0 <= j < n ==> #[trigger] firsts@[j] == if j < i && in_pass(s[j], games) {
                    start + pass_blocks(s, games, j)
                } else {
                    firsts0[j] as int
                },
        decreases n - i,
    {
        let save = &saves[i];
        assert(save@ == s[i as int]);
        let placed = match save.kind {
            FileKind::Game => games,
            FileKind::Data => !games,
        };
        if placed {
            let len = save.data.len();
            let blocks = ceil_div(len, BLOCK);
            if blocks == 0 {
                return Err(Error::EmptySave(save.name.clone()));
            }
            if next + blocks > USER_BLOCKS {
                return Err(Error::Full { needed: next + blocks, available: USER_BLOCKS });
            }
            let ghost before = image@;
            push_all(image, save.data.as_slice());
            push_repeated(image, 0, blocks * BLOCK - len);
            proof {
                assert(Seq::new((blocks * BLOCK - len) as nat, |k: int| 0u8) =~= zeros(
                    blocks_of(s[i as int]) * BLOCK - s[i as int].data.len(),
                ));
                assert(image@ =~= image0 + pass_area(s, games, i + 1));
            }
            push_run(links, next, blocks, CHAIN_END);
            proof {
                assert(links@ =~= links0 + pass_links(s, games, start as int, i + 1));
            }
            firsts.set(i, next);
            next = next + blocks;
        } else {
            proof {
                assert(image@ =~= image0 + pass_area(s, games, i + 1));
                assert(links@ =~= links0 + pass_links(s, games, start as int, i + 1));
            }
        }
        i = i + 1;
    }
    Ok(next)
}

/// The entry a save brings, cut or padded to an entry's length.
fn base_entry(save: &Save) -> (r: Vec<u8>)
    ensures
        r@ == entry_base(save@),
{
    let mut e: Vec<u8> = Vec::new();
    if save.dirent.len() > 0 {
        push_all(&mut e, save.dirent.as_slice());
    } else {
        let name = save.name.as_str().as_bytes();
        let len = if name.len() < 12 {
            name.len()
        } else {
            12
        };
        push_repeated(&mut e, 0, 4);
        push_all(&mut e, &name[0..len]);
        push_repeated(&mut e, 0, 28 - len);
        proof {
            assert(name@.subrange(0, len as int) =~= encode_utf8(save@.name).take(len as int));
            assert(e@ =~= name_entry(save@.name));
        }
    }
    let ghost brought = e@;
    if e.len() >= ENTRY_LEN {
        e.truncate(ENTRY_LEN);
        assert(e@ =~= brought.take(ENTRY_LEN as int));
    } else {
        let missing = ENTRY_LEN - e.len();
        push_repeated(&mut e, 0, missing);
        assert(e@ =~= brought + zeros(ENTRY_LEN - brought.len()));
    }
    e
}

/// The directory entry a save is written with.
fn placed_entry_bytes(save: &Save, first: usize, count: usize) -> (r: Vec<u8>)
    requires
        first < 0x10000,
        count < 0x10000,
    ensures
        r@ == placed_entry(entry_base(save@), kind_byte(save.kind), first as int, count as int),
{
    let mut e = base_entry(save);
    e.set(0, save.kind.as_byte());
    e.set(2, (first % 0x100) as u8);
    e.set(3, (first / 0x100) as u8);
    e.set(0x18, (count % 0x100) as u8);
    e.set(0x19, (count / 0x100) as u8);
    e
}

/// Every directory block, lowest address first, for saves placed where `firsts` says.
fn write_directory(saves: &Vec<Save>, firsts: &Vec<usize>, image: &mut Vec<u8>)
    requires
        saves@.len() <= MAX_ENTRIES,
        firsts@.len() == saves@.len(),
        forall|i: int|
            0 <= i < saves@.len() ==> #[trigger] firsts@[i] == first_block(save_views(saves@), i)
                && first_block(save_views(saves@), i) + blocks_of(save_views(saves@)[i]) <= USER_BLOCKS,
    ensures
        final(image)@ == old(image)@ + directory_region(save_views(saves@), DIR_BLOCKS as int),
{
    let ghost s = save_views(saves@);
    let ghost image0 = image@;
    let n = saves.len();
    let mut b: usize = 0;
    while b < DIR_BLOCKS
        invariant
            b <= DIR_BLOCKS,
            s == save_views(saves@),
            n == s.len(),
            n <= MAX_ENTRIES,
            firsts@.len() == n,
            forall|i: int|
                0 <= i < n ==> #[trigger] firsts@[i] == first_block(s, i) && first_block(s, i) + blocks_of(s[i])
                    <= USER_BLOCKS,
            image@ == image0 + directory_region(s, b as int),
        decreases DIR_BLOCKS - b,
    {
        let block = DIR_FIRST_BLOCK + 1 - DIR_BLOCKS + b;
        let ghost region = image@;
        let mut e: usize = 0;
        while e < 16
            invariant
                e <= 16,
                b < DIR_BLOCKS,
                block == DIR_FIRST_BLOCK + 1 - DIR_BLOCKS + b,
                s == save_views(saves@),
                n == s.len(),
                n <= MAX_ENTRIES,
                firsts@.len() == n,
                forall|i: int|
                    0 <= i < n ==> #[trigger] firsts@[i] == first_block(s, i) && first_block(s, i)
                        + blocks_of(s[i]) <= USER_BLOCKS,
                image@ == region + directory_run(s, block as int, e as int),
            decreases 16 - e,
        {
            let index = (DIR_FIRST_BLOCK - block) * 16 + e;
            if index < n {
                let save = &saves[index];
                assert(save@ == s[index as int]);
                let count = ceil_div(save.data.len(), BLOCK);
                assert(firsts@[index as int] == first_block(s, index as int));
                let entry = placed_entry_bytes(save, firsts[index], count);
                push_all(image, entry.as_slice());
            } else {
                push_repeated(image, 0, ENTRY_LEN);
                assert(Seq::new(ENTRY_LEN as nat, |k: int| 0u8) =~= zeros(ENTRY_LEN as int));
            }
            e = e + 1;
        }
        b = b + 1;
    }
}

/// A freshly formatted root block.
fn default_root_block() -> (r: Vec<u8>)
    ensures
        r@ == default_root(),
{
    let mut root: Vec<u8> = Vec::new();
    push_repeated(&mut root, 0x55, 16);
    push_repeated(&mut root, 0, BLOCK - 16);
    root.set(0x40, FAT_BLOCK as u8);
    root.set(0x42, 1);
    root.set(0x44, DIR_FIRST_BLOCK as u8);
    root.set(0x46, DIR_BLOCKS as u8);
    root.set(0x4A, USER_BLOCKS as u8);
    assert(root@ =~= default_root());
    root
}

/// Builds a VMU image from saves.
#[derive(Debug, Clone)]
pub struct VmuBuilder {
    saves: Vec<Save>,
    root: Option<Vec<u8>>,
}

/// What a builder holds, as values: the saves in the order they were added, and the root block
/// it was given, if any.
pub struct VmuBuilderView {
    pub saves: Seq<SaveView>,
    pub root: Option<Seq<u8>>,
}

impl View for VmuBuilder {
    type V = VmuBuilderView;

    closed spec fn view(&self) -> VmuBuilderView {
        VmuBuilderView {
            saves: save_views(self.saves@),
            root: match self.root {
                Some(r) => Some(r@),
                None => None,
            },
        }
    }
}

impl Default for VmuBuilder {
    /// A builder for an empty VMU.
    fn default() -> (r: Self)
        ensures
            r@.saves == Seq::<SaveView>::empty(),
            r@.root is None,
    {
        let r = VmuBuilder { saves: Vec::new(), root: None };
        assert(r@.saves =~= Seq::<SaveView>::empty());
        r
    }
}

impl VmuBuilder {
    /// A builder for an empty VMU.
    pub fn new() -> (r: Self)
        ensures
            r@.saves == Seq::<SaveView>::empty(),
            r@.root is None,
    {
        Self::default()
    }

    /// Keeps a root block read off another VMU, so its colour and icon survive.
    ///
    /// A block that is not [`BLOCK`] bytes is ignored when the image is written, since it is not a
    /// root block.
    pub fn root_block(&mut self, bytes: Vec<u8>) -> (r: &mut Self)
        ensures
            r@.saves == old(self)@.saves,
            r@.root == Some(bytes@),
            final(self)@ == final(r)@,
    {
        self.root = Some(bytes);
        self
    }

    /// Adds a save. Its `slot` is ignored: the directory is filled in the order saves are added.
    pub fn add(&mut self, save: Save) -> (r: &mut Self)
        ensures
            r@.saves == old(self)@.saves.push(save@),
            r@.root == old(self)@.root,
            final(self)@ == final(r)@,
    {
        self.saves.push(save);
        proof {
            assert(save_views(self.saves@) =~= save_views(old(self).saves@).push(save@));
        }
        self
    }
    /// Writes the VMU out, all 128 KiB of it.
    ///
    /// Mini-games are placed first, from block 0, since one executes in place and has to start
    /// there; the rest follow in the order they were added. The directory index stays the order
    /// saves were added in: only where they land is reordered.
    pub fn build(&self) -> (r: Result<Vec<u8>, Error>)
        ensures
            self@.saves.len() > MAX_ENTRIES ==> (r matches Err(Error::TooManySaves { given, available })
                && given == self@.saves.len() && available == MAX_ENTRIES),
            self@.saves.len() <= MAX_ENTRIES ==> match build_fault(self@.saves) {
                Some(Refusal::Empty(name)) => r matches Err(Error::EmptySave(n)) && n@ == name,
                Some(Refusal::Full(needed)) => r matches Err(Error::Full { needed: x, available: y })
                    && x == needed && y == USER_BLOCKS,
                None => r matches Ok(image) && image@ == vmu_image(self@.saves, self@.root),
            },
    {
        let ghost s = save_views(self.saves@);
        let n = self.saves.len();
        if n > MAX_ENTRIES {
            return Err(Error::TooManySaves { given: n, available: MAX_ENTRIES });
        }
        let mut image: Vec<u8> = Vec::new();
        let mut links: Vec<u16> = Vec::new();
        let mut firsts: Vec<usize> = Vec::new();
        let mut i: usize = 0;
        while i < n
            invariant
                i <= n,
                firsts@.len() == i,
            decreases n - i,
        {
            firsts.push(0);
            i = i + 1;
        }
        proof {
            lemma_pass_blocks_nonnegative(s, true, n as int);
            lemma_pass_blocks_nonnegative(s, false, n as int);
        }
        let games = place_pass(&self.saves, true, 0, &mut image, &mut links, &mut firsts);
        let games_end = match games {
            Ok(end) => end,
            Err(e) => {
                return Err(e);
            },
        };
        assert(pass_fault(s, true, 0, 0) is None);
        let ghost after_games = firsts@;
        let rest = place_pass(&self.saves, false, games_end, &mut image, &mut links, &mut firsts);
        let used = match rest {
            Ok(end) => end,
            Err(e) => {
                return Err(e);
            },
        };
        assert(pass_fault(s, false, games_end as int, 0) is None);
        proof {
            assert forall|i: int| 0 <= i < n implies #[trigger] firsts@[i] == first_block(s, i) && first_block(
                s,
                i,
            ) + blocks_of(s[i]) <= USER_BLOCKS by {
                lemma_pass_blocks_grow(s, true, i + 1, n as int);
                lemma_pass_blocks_grow(s, false, i + 1, n as int);
                lemma_pass_blocks_grow(s, true, i, i);
                lemma_pass_blocks_grow(s, false, i, i);
                assert(after_games[i] == firsts@[i] || !in_pass(s[i], true));
            }
        }
        push_repeated(&mut image, 0, (DIR_FIRST_BLOCK + 1 - DIR_BLOCKS - used) * BLOCK);
        proof {
            assert(Seq::new(((DIR_FIRST_BLOCK + 1 - DIR_BLOCKS - used) * BLOCK) as nat, |k: int| 0u8) =~= zeros(
                (DIR_FIRST_BLOCK + 1 - DIR_BLOCKS - used_blocks(s)) * BLOCK,
            ));
            assert(image@ =~= data_region(s));
        }
        write_directory(&self.saves, &firsts, &mut image);
        push_repeated_links(&mut links, FREE, USER_BLOCKS - used);
        push_repeated_links(&mut links, CHAIN_END, BLOCKS - USER_BLOCKS);
        assert(links@ =~= fat_table(s));
        push_words(&mut image, links.as_slice(), false);
        match &self.root {
            Some(root) if root.len() == BLOCK => {
                push_all(&mut image, root.as_slice());
            },
            _ => {
                let root = default_root_block();
                push_all(&mut image, root.as_slice());
            },
        }
        Ok(image)
    }
}

// ---------------------------------------------------------------------------------------------
// What is written reads back.

/// A save's bytes padded to its blocks are exactly its blocks long.
proof fn lemma_padded_len(v: SaveView)
    ensures
        blocks_of(v) >= 0,
        blocks_of(v) * BLOCK >= v.data.len(),
        padded(v).len() == blocks_of(v) * BLOCK,
{
}

/// With no save of a pass refused, every save of it has a block and fits below the last block a
/// save may take, and so does the pass as a whole.
proof fn lemma_pass_fits(s: Seq<SaveView>, games: bool, start: int, i: int)
    requires
        0 <= i <= s.len(),
        pass_fault(s, games, start, i) is None,
        start + pass_blocks(s, games, i) <= USER_BLOCKS,
    ensures
        start + pass_blocks(s, games, s.len() as int) <= USER_BLOCKS,
        forall|j: int|
            i <= j < s.len() && in_pass(s[j], games) ==> blocks_of(#[trigger] s[j]) >= 1 && start + pass_blocks(
                s,
                games,
                j,
            ) + blocks_of(s[j]) <= USER_BLOCKS,
    decreases s.len() - i,
{
    if i < s.len() {
        lemma_pass_fits(s, games, start, i + 1);
    }
}

/// One pass's blocks, laid end to end: each save's padded bytes sit where the blocks before it
/// in the pass end.
proof fn lemma_pass_area(s: Seq<SaveView>, games: bool, k: int)
    requires
        0 <= k <= s.len(),
    ensures
        pass_area(s, games, k).len() == pass_blocks(s, games, k) * BLOCK,
        forall|j: int|
            0 <= j < k && in_pass(s[j], games) ==> #[trigger] pass_area(s, games, k).subrange(
                pass_blocks(s, games, j) * BLOCK,
                (pass_blocks(s, games, j) + blocks_of(s[j])) * BLOCK,
            ) == padded(s[j]),
    decreases k,
{
    if k > 0 {
        lemma_pass_area(s, games, k - 1);
        lemma_padded_len(s[k - 1]);
        lemma_pass_blocks_grow(s, games, 0, k - 1);
        let prev = pass_area(s, games, k - 1);
        let cur = pass_area(s, games, k);
        assert forall|j: int| 0 <= j < k && in_pass(s[j], games) implies #[trigger] cur.subrange(
            pass_blocks(s, games, j) * BLOCK,
            (pass_blocks(s, games, j) + blocks_of(s[j])) * BLOCK,
        ) == padded(s[j]) by {
            lemma_padded_len(s[j]);
            lemma_pass_blocks_grow(s, games, 0, j);
            assert(pass_blocks(s, games, j + 1) == pass_blocks(s, games, j) + blocks_of(s[j]));
            if j < k - 1 {
                lemma_pass_blocks_grow(s, games, j + 1, k - 1);
                let tail = if in_pass(s[k - 1], games) {
                    padded(s[k - 1])
                } else {
                    Seq::empty()
                };
                assert(cur == prev + tail);
                assert(cur.subrange(
                    pass_blocks(s, games, j) * BLOCK,
                    (pass_blocks(s, games, j) + blocks_of(s[j])) * BLOCK,
                ) =~= prev.subrange(
                    pass_blocks(s, games, j) * BLOCK,
                    (pass_blocks(s, games, j) + blocks_of(s[j])) * BLOCK,
                ));
            } else {
                assert(cur.subrange(
                    pass_blocks(s, games, j) * BLOCK,
                    (pass_blocks(s, games, j) + blocks_of(s[j])) * BLOCK,
                ) =~= padded(s[j]));
            }
        }
    }
}

/// One pass's chains, laid end to end: each save's run sits where the blocks before it in the
/// pass end.
proof fn lemma_pass_links(s: Seq<SaveView>, games: bool, start: int, k: int)
    requires
        0 <= k <= s.len(),
    ensures
        pass_links(s, games, start, k).len() == pass_blocks(s, games, k),
        forall|j: int, m: int|
            0 <= j < k && in_pass(s[j], games) && 0 <= m < blocks_of(s[j]) ==> #[trigger] pass_links(
                s,
                games,
                start,
                k,
            )[pass_blocks(s, games, j) + m] == #[trigger] run_links(
                start + pass_blocks(s, games, j),
                blocks_of(s[j]),
                CHAIN_END,
            )[m],
    decreases k,
{
    if k > 0 {
        lemma_pass_links(s, games, start, k - 1);
        lemma_padded_len(s[k - 1]);
        lemma_pass_blocks_grow(s, games, 0, k - 1);
        assert forall|j: int, m: int|
            0 <= j < k && in_pass(s[j], games) && 0 <= m < blocks_of(s[j]) implies #[trigger] pass_links(
            s,
            games,
            start,
            k,
        )[pass_blocks(s, games, j) + m] == #[trigger] run_links(
            start + pass_blocks(s, games, j),
            blocks_of(s[j]),
            CHAIN_END,
        )[m] by {
            let prev = pass_links(s, games, start, k - 1);
            let cur = pass_links(s, games, start, k);
            assert(pass_blocks(s, games, j + 1) == pass_blocks(s, games, j) + blocks_of(s[j]));
            lemma_padded_len(s[j]);
            lemma_pass_blocks_grow(s, games, 0, j);
            if j < k - 1 {
                lemma_pass_blocks_grow(s, games, j + 1, k - 1);
                assert(pass_blocks(s, games, j + 1) <= pass_blocks(s, games, k - 1));
                assert(prev.len() == pass_blocks(s, games, k - 1));
                assert(pass_blocks(s, games, j) + m < prev.len());
                let tail = if in_pass(s[k - 1], games) {
                    run_links(start + pass_blocks(s, games, k - 1), blocks_of(s[k - 1]), CHAIN_END)
                } else {
                    Seq::empty()
                };
                assert(cur == prev + tail);
                assert(cur[pass_blocks(s, games, j) + m] == prev[pass_blocks(s, games, j) + m]);
            } else {
                assert(cur == prev + run_links(start + pass_blocks(s, games, j), blocks_of(s[j]), CHAIN_END));
                assert(cur[pass_blocks(s, games, j) + m] == run_links(
                    start + pass_blocks(s, games, j),
                    blocks_of(s[j]),
                    CHAIN_END,
                )[m]);
            }
        }
    }
}

/// A directory run is an entry long per slot, and each slot holds its save's entry.
proof fn lemma_directory_run(s: Seq<SaveView>, block: int, k: int)
    requires
        0 <= k,
    ensures
        directory_run(s, block, k).len() == k * ENTRY_LEN,
        forall|e: int|
            0 <= e < k ==> #[trigger] directory_run(s, block, k).subrange(e * ENTRY_LEN, e * ENTRY_LEN + ENTRY_LEN)
                == slot_bytes(s, (DIR_FIRST_BLOCK - block) * 16 + e),
    decreases k,
{
    if k > 0 {
        lemma_directory_run(s, block, k - 1);
        let index = (DIR_FIRST_BLOCK - block) * 16 + k - 1;
        assert(slot_bytes(s, index).len() == ENTRY_LEN) by {
            if index < s.len() {
                let v = s[index];
                let e = if v.dirent.len() > 0 { v.dirent } else { name_entry(v.name) };
                assert(name_entry(v.name).len() == ENTRY_LEN);
            }
        }
        let prev = directory_run(s, block, k - 1);
        let cur = directory_run(s, block, k);
        assert forall|e: int| 0 <= e < k implies #[trigger] cur.subrange(e * ENTRY_LEN, e * ENTRY_LEN + ENTRY_LEN)
            == slot_bytes(s, (DIR_FIRST_BLOCK - block) * 16 + e) by {
            if e < k - 1 {
                assert(cur.subrange(e * ENTRY_LEN, e * ENTRY_LEN + ENTRY_LEN) =~= prev.subrange(
                    e * ENTRY_LEN,
                    e * ENTRY_LEN + ENTRY_LEN,
                ));
            } else {
                assert(cur.subrange(e * ENTRY_LEN, e * ENTRY_LEN + ENTRY_LEN) =~= slot_bytes(
                    s,
                    (DIR_FIRST_BLOCK - block) * 16 + e,
                ));
            }
        }
    }
}

/// The directory blocks are a block long each, and every slot of every block holds its save's
/// entry.
proof fn lemma_directory_region(s: Seq<SaveView>, k: int)
    requires
        0 <= k,
    ensures
        directory_region(s, k).len() == k * BLOCK,
        forall|r: int, e: int|
            0 <= r < k && 0 <= e < 16 ==> #[trigger] directory_region(s, k).subrange(
                r * BLOCK + e * ENTRY_LEN,
                r * BLOCK + e * ENTRY_LEN + ENTRY_LEN,
            ) == #[trigger] slot_bytes(s, (DIR_FIRST_BLOCK - (DIR_FIRST_BLOCK + 1 - DIR_BLOCKS + r)) * 16 + e),
    decreases k,
{
    if k > 0 {
        lemma_directory_region(s, k - 1);
        let block = DIR_FIRST_BLOCK + 1 - DIR_BLOCKS + k - 1;
        lemma_directory_run(s, block, 16);
        let prev = directory_region(s, k - 1);
        let cur = directory_region(s, k);
        assert forall|r: int, e: int| 0 <= r < k && 0 <= e < 16 implies #[trigger] cur.subrange(
            r * BLOCK + e * ENTRY_LEN,
            r * BLOCK + e * ENTRY_LEN + ENTRY_LEN,
        ) == #[trigger] slot_bytes(s, (DIR_FIRST_BLOCK - (DIR_FIRST_BLOCK + 1 - DIR_BLOCKS + r)) * 16 + e) by {
            if r < k - 1 {
                assert(cur.subrange(r * BLOCK + e * ENTRY_LEN, r * BLOCK + e * ENTRY_LEN + ENTRY_LEN)
                    =~= prev.subrange(r * BLOCK + e * ENTRY_LEN, r * BLOCK + e * ENTRY_LEN + ENTRY_LEN));
            } else {
                let run = directory_run(s, block, 16);
                assert(run.subrange(e * ENTRY_LEN, e * ENTRY_LEN + ENTRY_LEN) == slot_bytes(
                    s,
                    (DIR_FIRST_BLOCK - block) * 16 + e,
                ));
                assert(cur.subrange(r * BLOCK + e * ENTRY_LEN, r * BLOCK + e * ENTRY_LEN + ENTRY_LEN)
                    =~= run.subrange(e * ENTRY_LEN, e * ENTRY_LEN + ENTRY_LEN));
            }
        }
    }
}

/// Whether a root block carries the format mark: sixteen bytes of `0x55`.
pub open spec fn formatted_root(root: Seq<u8>) -> bool {
    root.len() >= 16 && forall|i: int| 0 <= i < 16 ==> #[trigger] root[i] == 0x55
}

/// What save `i` reads back as: in the slot it was added at, of the kind it was, with the entry
/// it was written with, the name that entry carries, and its bytes padded to whole blocks.
pub open spec fn written_save(s: Seq<SaveView>, i: int) -> SaveView {
    SaveView {
        slot: i,
        kind: s[i].kind,
        name: name_of(entry_of(s, i)),
        dirent: entry_of(s, i),
        data: padded(s[i]),
    }
}

/// A written entry is an entry long, carries its save's type byte, and reads back the first block
/// and block count it was written with.
proof fn lemma_entry_of(s: Seq<SaveView>, i: int)
    requires
        0 <= i < s.len(),
        0 <= first_block(s, i) < 0x10000,
        0 <= blocks_of(s[i]) < 0x10000,
    ensures
        entry_of(s, i).len() == ENTRY_LEN,
        entry_of(s, i)[0] == kind_byte(s[i].kind),
        entry_first(entry_of(s, i)) == first_block(s, i),
        entry_blocks(entry_of(s, i)) == blocks_of(s[i]),
{
    let v = s[i];
    assert(name_entry(v.name).len() == ENTRY_LEN);
    assert(entry_base(v).len() == ENTRY_LEN);
}

/// Where each part of a written image sits.
proof fn lemma_image_parts(s: Seq<SaveView>, root: Option<Seq<u8>>)
    requires
        used_blocks(s) <= USER_BLOCKS,
        pass_blocks(s, true, s.len() as int) >= 0,
        pass_blocks(s, false, s.len() as int) >= 0,
    ensures
        vmu_image(s, root).len() == IMAGE_LEN,
        vmu_image(s, root).subrange(0, (DIR_FIRST_BLOCK + 1 - DIR_BLOCKS) * BLOCK) == data_region(s),
        vmu_image(s, root).subrange((DIR_FIRST_BLOCK + 1 - DIR_BLOCKS) * BLOCK, FAT_BLOCK * BLOCK)
            == directory_region(s, DIR_BLOCKS as int),
        vmu_image(s, root).subrange(FAT_BLOCK * BLOCK, ROOT_BLOCK * BLOCK) == le16_words(fat_table(s)),
        vmu_image(s, root).subrange(ROOT_BLOCK * BLOCK, IMAGE_LEN as int) == root_of(root),
{
    let n = s.len() as int;
    lemma_pass_area(s, true, n);
    lemma_pass_area(s, false, n);
    lemma_pass_links(s, true, 0, n);
    lemma_pass_links(s, false, pass_blocks(s, true, n), n);
    lemma_directory_region(s, DIR_BLOCKS as int);
    lemma_le16_words(fat_table(s));
    let d = data_region(s);
    let r = directory_region(s, DIR_BLOCKS as int);
    let t = le16_words(fat_table(s));
    let ro = root_of(root);
    assert(d.len() == (DIR_FIRST_BLOCK + 1 - DIR_BLOCKS) * BLOCK);
    assert(t.len() == BLOCK);
    let image = vmu_image(s, root);
    assert(image == d + r + t + ro);
    assert(image.subrange(0, (DIR_FIRST_BLOCK + 1 - DIR_BLOCKS) * BLOCK) =~= d);
    assert(image.subrange((DIR_FIRST_BLOCK + 1 - DIR_BLOCKS) * BLOCK, FAT_BLOCK * BLOCK) =~= r);
    assert(image.subrange(FAT_BLOCK * BLOCK, ROOT_BLOCK * BLOCK) =~= t);
    assert(image.subrange(ROOT_BLOCK * BLOCK, IMAGE_LEN as int) =~= ro);
}

/// With nothing refused, every save has a block, and every save's run ends at or before the last
/// block saves may take.
proof fn lemma_placement(s: Seq<SaveView>)
    requires
        build_fault(s) is None,
    ensures
        0 <= pass_blocks(s, true, s.len() as int),
        0 <= pass_blocks(s, false, s.len() as int),
        used_blocks(s) <= USER_BLOCKS,
        forall|i: int|
            0 <= i < s.len() ==> blocks_of(#[trigger] s[i]) >= 1 && 0 <= first_block(s, i) && first_block(s, i)
                + blocks_of(s[i]) <= used_blocks(s),
{
    let n = s.len() as int;
    lemma_pass_blocks_grow(s, true, 0, n);
    lemma_pass_blocks_grow(s, false, 0, n);
    lemma_pass_fits(s, true, 0, 0);
    lemma_pass_fits(s, false, pass_blocks(s, true, n), 0);
    assert forall|i: int| 0 <= i < s.len() implies blocks_of(#[trigger] s[i]) >= 1 && 0 <= first_block(s, i)
        && first_block(s, i) + blocks_of(s[i]) <= used_blocks(s) by {
        lemma_pass_blocks_grow(s, true, 0, i);
        lemma_pass_blocks_grow(s, false, 0, i);
        lemma_pass_blocks_grow(s, true, i + 1, n);
        lemma_pass_blocks_grow(s, false, i + 1, n);
    }
}

/// A save's run is chained in the table.
proof fn lemma_run_written(s: Seq<SaveView>, i: int)
    requires
        build_fault(s) is None,
        0 <= i < s.len(),
    ensures
        holds_run(fat_table(s), first_block(s, i), blocks_of(s[i]), CHAIN_END),
{
    let n = s.len() as int;
    lemma_placement(s);
    let g = pass_blocks(s, true, n);
    let f = first_block(s, i);
    let b = blocks_of(s[i]);
    let table = fat_table(s);
    let games = in_pass(s[i], true);
    let start = if games { 0 } else { g };
    let before = if games { 0 } else { g };
    let links = pass_links(s, games, start, n);
    lemma_pass_links(s, games, start, n);
    lemma_pass_links(s, true, 0, n);
    lemma_pass_blocks_grow(s, games, i + 1, n);
    lemma_pass_blocks_grow(s, games, 0, i);
    assert(f == before + pass_blocks(s, games, i));
    assert forall|m: int| 0 <= m < b implies #[trigger] table[f + m] == if m + 1 == b {
        CHAIN_END
    } else {
        (f + m + 1) as u16
    } by {
        assert(table[f + m] == links[pass_blocks(s, games, i) + m]);
        assert(links[pass_blocks(s, games, i) + m] == run_links(start + pass_blocks(s, games, i), b, CHAIN_END)[m]);
    }
}

/// A save's blocks hold its padded bytes.
proof fn lemma_bytes_written(s: Seq<SaveView>, root: Option<Seq<u8>>, i: int)
    requires
        build_fault(s) is None,
        0 <= i < s.len(),
    ensures
        vmu_image(s, root).subrange(first_block(s, i) * BLOCK, (first_block(s, i) + blocks_of(s[i])) * BLOCK)
            == padded(s[i]),
{
    let n = s.len() as int;
    lemma_placement(s);
    lemma_image_parts(s, root);
    let g = pass_blocks(s, true, n);
    let f = first_block(s, i);
    let b = blocks_of(s[i]);
    let games = in_pass(s[i], true);
    let before = if games { 0 } else { g };
    let area = pass_area(s, games, n);
    lemma_pass_area(s, games, n);
    lemma_pass_area(s, true, n);
    lemma_pass_blocks_grow(s, games, i + 1, n);
    lemma_pass_blocks_grow(s, games, 0, i);
    lemma_padded_len(s[i]);
    let image = vmu_image(s, root);
    let d = data_region(s);
    assert(f == before + pass_blocks(s, games, i));
    assert(area.subrange(pass_blocks(s, games, i) * BLOCK, (pass_blocks(s, games, i) + b) * BLOCK) == padded(s[i]));
    assert(image.subrange(f * BLOCK, (f + b) * BLOCK) =~= d.subrange(f * BLOCK, (f + b) * BLOCK));
    assert(d.subrange(f * BLOCK, (f + b) * BLOCK) =~= area.subrange(
        pass_blocks(s, games, i) * BLOCK,
        (pass_blocks(s, games, i) + b) * BLOCK,
    ));
}

/// Each directory slot of a written image holds the entry of the save added at that index, or
/// zeros.
proof fn lemma_entry_written(s: Seq<SaveView>, root: Option<Seq<u8>>, slot: int)
    requires
        build_fault(s) is None,
        0 <= slot < MAX_ENTRIES,
    ensures
        entry_at(vmu_image(s, root), slot) == slot_bytes(s, slot),
{
    lemma_placement(s);
    lemma_image_parts(s, root);
    lemma_directory_region(s, DIR_BLOCKS as int);
    let image = vmu_image(s, root);
    let region = directory_region(s, DIR_BLOCKS as int);
    let r = 12 - slot / 16;
    let e = slot % 16;
    assert(0 <= r < DIR_BLOCKS && 0 <= e < 16);
    assert((DIR_FIRST_BLOCK - (DIR_FIRST_BLOCK + 1 - DIR_BLOCKS + r)) * 16 + e == slot);
    assert(region.subrange(r * BLOCK + e * ENTRY_LEN, r * BLOCK + e * ENTRY_LEN + ENTRY_LEN) == slot_bytes(
        s,
        (DIR_FIRST_BLOCK - (DIR_FIRST_BLOCK + 1 - DIR_BLOCKS + r)) * 16 + e,
    ));
    let at = entry_offset_spec(slot);
    assert(at == (DIR_FIRST_BLOCK + 1 - DIR_BLOCKS) * BLOCK + r * BLOCK + e * ENTRY_LEN);
    assert(image.subrange((DIR_FIRST_BLOCK + 1 - DIR_BLOCKS) * BLOCK, FAT_BLOCK * BLOCK) == region);
    assert(entry_at(image, slot) =~= region.subrange(r * BLOCK + e * ENTRY_LEN, r * BLOCK + e * ENTRY_LEN + ENTRY_LEN));
}

/// The table a written image reads is the one it was written with.
proof fn lemma_table_written(s: Seq<SaveView>, root: Option<Seq<u8>>)
    requires
        build_fault(s) is None,
    ensures
        fat_links(vmu_image(s, root)) == fat_table(s),
{
    lemma_placement(s);
    lemma_image_parts(s, root);
    lemma_pass_links(s, true, 0, s.len() as int);
    lemma_pass_links(s, false, pass_blocks(s, true, s.len() as int), s.len() as int);
    let table = fat_table(s);
    lemma_le16_words(table);
    let image = vmu_image(s, root);
    let t = le16_words(table);
    assert(table.len() == BLOCKS);
    assert(image.subrange(FAT_BLOCK * BLOCK, ROOT_BLOCK * BLOCK) == t);
    assert forall|b: int| 0 <= b < BLOCKS implies #[trigger] fat_links(image)[b] == table[b] by {
        assert(image[FAT_BLOCK * BLOCK + 2 * b] == t[2 * b]);
        assert(image[FAT_BLOCK * BLOCK + 2 * b + 1] == t[2 * b + 1]);
        assert(le16(t, 2 * b) == table[b]);
    }
    assert(fat_links(image) =~= table);
}

/// Every slot of a written image is readable: a save's slot reads back as that save was written,
/// and every other slot is free.
proof fn lemma_slot_reads_back(s: Seq<SaveView>, root: Option<Seq<u8>>, slot: int)
    requires
        s.len() <= MAX_ENTRIES,
        build_fault(s) is None,
        0 <= slot < MAX_ENTRIES,
    ensures
        entry_readable(vmu_image(s, root), slot),
        slot < s.len() ==> kind_of(entry_at(vmu_image(s, root), slot)[0]) is Some && save_at(vmu_image(s, root), slot)
            == written_save(s, slot),
        slot >= s.len() ==> kind_of(entry_at(vmu_image(s, root), slot)[0]) is None,
{
    let image = vmu_image(s, root);
    lemma_placement(s);
    lemma_entry_written(s, root, slot);
    if slot < s.len() {
        let v = s[slot];
        let f = first_block(s, slot);
        let b = blocks_of(v);
        lemma_entry_of(s, slot);
        lemma_kind_byte_round_trips(v.kind, 0);
        lemma_table_written(s, root);
        lemma_run_written(s, slot);
        lemma_run_is_chained(fat_table(s), f, b, 0, USER_BLOCKS as int, CHAIN_END);
        lemma_bytes_written(s, root, slot);
        lemma_image_parts(s, root);
        lemma_gather_run(image, f, b, BLOCK as int);
        assert(save_at(image, slot) =~= written_save(s, slot));
    } else {
        assert(slot_bytes(s, slot)[0] == 0);
    }
}

/// The saves of a written image's first `k` slots.
proof fn lemma_saves_written(s: Seq<SaveView>, root: Option<Seq<u8>>, k: int)
    requires
        s.len() <= MAX_ENTRIES,
        build_fault(s) is None,
        0 <= k <= MAX_ENTRIES,
    ensures
        saves_upto(vmu_image(s, root), k) == Seq::new(
            if k < s.len() { k as nat } else { s.len() },
            |i: int| written_save(s, i),
        ),
    decreases k,
{
    if k > 0 {
        lemma_saves_written(s, root, k - 1);
        lemma_slot_reads_back(s, root, k - 1);
        let prev = Seq::new(if k - 1 < s.len() { (k - 1) as nat } else { s.len() }, |i: int| written_save(s, i));
        let cur = Seq::new(if k < s.len() { k as nat } else { s.len() }, |i: int| written_save(s, i));
        if k - 1 < s.len() {
            assert(cur =~= prev.push(written_save(s, k - 1)));
        } else {
            assert(cur =~= prev);
        }
    }
}

/// What a VMU is written as reads back as that VMU: the image is a whole VMU, formatted when the
/// root block written is, with every entry's chain readable; and its saves are the ones added, in
/// the order they were added, each in the slot it was added at, of the kind it was, with the
/// entry it was written with and its bytes padded to whole blocks.
pub proof fn lemma_a_written_vmu_reads_back(s: Seq<SaveView>, root: Option<Seq<u8>>)
    requires
        s.len() <= MAX_ENTRIES,
        build_fault(s) is None,
        formatted_root(root_of(root)),
    ensures
        vmu_image(s, root).len() == IMAGE_LEN,
        formatted(vmu_image(s, root)),
        directory_readable(vmu_image(s, root)),
        saves_upto(vmu_image(s, root), MAX_ENTRIES as int) == Seq::new(s.len(), |i: int| written_save(s, i)),
{
    let image = vmu_image(s, root);
    lemma_placement(s);
    lemma_image_parts(s, root);
    assert forall|i: int| 0 <= i < 16 implies #[trigger] root_byte(image, i) == 0x55 by {
        assert(image.subrange(ROOT_BLOCK * BLOCK, IMAGE_LEN as int)[i] == root_of(root)[i]);
    }
    assert forall|slot: int| 0 <= slot < MAX_ENTRIES implies entry_readable(image, slot) by {
        lemma_slot_reads_back(s, root, slot);
    }
    lemma_saves_written(s, root, MAX_ENTRIES as int);
}

/// A fresh root block carries the format mark, so an image written without one is formatted.
pub proof fn lemma_a_fresh_root_is_formatted()
    ensures
        formatted_root(root_of(None)),
        formatted_root(default_root()),
{
}

} // verus!
