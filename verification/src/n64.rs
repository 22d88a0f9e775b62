//! Nintendo 64 Controller Pak images.
//!
//! A pak is 32 KiB of 256-byte pages. Page 0 is the ID area, pages 1 and 2 are the index table and
//! its backup, pages 3 and 4 are the note table, and pages 5 to 127 hold the notes' data. A note's
//! pages are chained through the index table rather than laid out contiguously.
//!
//! A note's name is written in the N64 font's own code table, in which the digits start at 16 and
//! the letters at 26; [`font`] is the table. A pak permits two notes with the same game code and
//! name, so the note table index is the only thing that tells them apart, which is why [`Note`]
//! carries a `slot`.

pub mod font;
pub mod writer;

use vstd::prelude::*;
use crate::bytes::{be16, copy_of, read_be16};
use crate::chain::{chain_ends, chain_seq, follow_to_end, gather, gather_blocks, lemma_lists_chain, lemma_one_length, link};
use crate::text::{ascii_text, graphic_ascii, graphic_only, push_str, push_char};
use self::font::{decode, font_text};

verus! {

/// One page: the unit the index table counts.
pub const PAGE: usize = 256;

/// How many pages a pak has.
pub const PAGES: usize = 128;

/// The whole pak, which is also its data capacity.
pub const CAPACITY: usize = PAGE * PAGES;

/// Where the index table lives.
pub const INDEX_PAGE: usize = 1;

/// Where the index table's backup copy lives.
pub const INDEX_BACKUP_PAGE: usize = 2;

/// Where the note table starts. It runs two pages, holding sixteen 32-byte entries.
pub const NOTE_TABLE_PAGE: usize = 3;

/// How many notes a pak holds.
pub const NOTES: usize = 16;

/// A note table entry's length.
pub const NOTE_ENTRY: usize = 32;

/// The first page a note's data can occupy.
pub const FIRST_DATA_PAGE: usize = 5;

/// An index entry meaning "this is the last page of its chain".
pub const CHAIN_END: u16 = 1;

/// An index entry meaning "this page is free".
pub const CHAIN_FREE: u16 = 3;

/// Whether an index table entry could be part of a chain: free, the end of one, or a data page.
pub open spec fn plausible_entry(entry: u16) -> bool {
    entry == CHAIN_FREE || entry == CHAIN_END || (FIRST_DATA_PAGE <= entry < PAGES)
}

/// Whether an index table entry could be part of a chain.
fn plausible(entry: u16) -> (r: bool)
    ensures
        r == plausible_entry(entry),
{
    entry == CHAIN_FREE || entry == CHAIN_END || (FIRST_DATA_PAGE as u16 <= entry && entry < PAGES as u16)
}

/// The index table on a page, as its 128 words.
pub open spec fn index_words(image: Seq<u8>, page: int) -> Seq<u16> {
    Seq::new(PAGES as nat, |i: int| be16(image, page * PAGE + 2 * i) as u16)
}

/// Whether every data page's entry of a table is plausible.
pub open spec fn table_plausible(words: Seq<u16>) -> bool {
    forall|i: int| FIRST_DATA_PAGE <= i < PAGES ==> plausible_entry(#[trigger] words[i])
}

/// The index table a pak is read through: the primary, or the backup when the primary is not
/// usable, or neither.
pub open spec fn chosen_index(image: Seq<u8>) -> Option<Seq<u16>> {
    if table_plausible(index_words(image, INDEX_PAGE as int)) {
        Some(index_words(image, INDEX_PAGE as int))
    } else if table_plausible(index_words(image, INDEX_BACKUP_PAGE as int)) {
        Some(index_words(image, INDEX_BACKUP_PAGE as int))
    } else {
        None
    }
}

/// Whether these bytes look like a Controller Pak: the length, and a primary index table that
/// marks every data page free or chained.
pub open spec fn looks_like_pak(image: Seq<u8>) -> bool {
    image.len() == CAPACITY && table_plausible(index_words(image, INDEX_PAGE as int))
}

/// Reads the index table on a page.
fn read_index(bytes: &[u8], page: usize) -> (words: Vec<u16>)
    requires
        bytes@.len() == CAPACITY,
        page < PAGES,
    ensures
        words@ == index_words(bytes@, page as int),
{
    let mut words: Vec<u16> = Vec::new();
    let mut i: usize = 0;
    while i < PAGES
        invariant
            i <= PAGES,
            page < PAGES,
            bytes@.len() == CAPACITY,
            words@.len() == i,
            forall|k: int| 0 <= k < i ==> words@[k] == index_words(bytes@, page as int)[k],
        decreases PAGES - i,
    {
        words.push(read_be16(bytes, page * PAGE + 2 * i));
        i = i + 1;
    }
    assert(words@ =~= index_words(bytes@, page as int));
    words
}

/// Whether every data page's entry is plausible.
fn all_plausible(words: &Vec<u16>) -> (r: bool)
    requires
        words@.len() == PAGES,
    ensures
        r == table_plausible(words@),
{
    let mut i: usize = FIRST_DATA_PAGE;
    while i < PAGES
        invariant
            FIRST_DATA_PAGE <= i <= PAGES,
            words@.len() == PAGES,
            forall|k: int| FIRST_DATA_PAGE <= k < i ==> plausible_entry(#[trigger] words@[k]),
        decreases PAGES - i,
    {
        if !plausible(words[i]) {
            return false;
        }
        i = i + 1;
    }
    true
}

/// Whether these bytes look like a Controller Pak.
///
/// There is no magic to check, so this leans on the index table: a formatted pak marks every data
/// page free or chained, and the three reserved entries before the first data page are never a
/// plausible chain.
pub fn detect(bytes: &[u8]) -> (r: bool)
    ensures
        r == looks_like_pak(bytes@),
{
    if bytes.len() != CAPACITY {
        return false;
    }
    let words = read_index(bytes, INDEX_PAGE);
    all_plausible(&words)
}

/// One note on a pak.
#[derive(Debug, Clone, PartialEq, Eq)]
pub struct Note {
    /// The note table index it occupied.
    ///
    /// Two notes may agree on game code and name, so this is the only thing that keeps them apart.
    pub slot: usize,
    /// The four-character game code, in ASCII rather than the font table.
    pub game_code: String,
    /// The note's name, decoded from the font table.
    pub name: String,
    /// The note's extension, decoded from the font table. Usually empty.
    pub extension: String,
    /// The note table entry's 32 bytes, verbatim and opaque.
    ///
    /// Empty when a note was built by hand rather than read off a pak.
    pub dirent: Vec<u8>,
    /// The note's bytes: every page it occupies, in chain order.
    pub data: Vec<u8>,
}

/// What a note holds, as values.
pub struct NoteView {
    pub slot: int,
    pub game_code: Seq<char>,
    pub name: Seq<char>,
    pub extension: Seq<char>,
    pub dirent: Seq<u8>,
    pub data: Seq<u8>,
}

impl View for Note {
    type V = NoteView;

    open spec fn view(&self) -> NoteView {
        NoteView {
            slot: self.slot as int,
            game_code: self.game_code@,
            name: self.name@,
            extension: self.extension@,
            dirent: self.dirent@,
            data: self.data@,
        }
    }
}

/// The values of a run of notes.
pub open spec fn note_views(notes: Seq<Note>) -> Seq<NoteView> {
    Seq::new(notes.len(), |i: int| notes[i]@)
}

/// A name and an extension as one path: the name alone when there is no extension.
pub open spec fn path_of(name: Seq<char>, extension: Seq<char>) -> Seq<char> {
    if extension.len() == 0 {
        name
    } else {
        name + seq!['.'] + extension
    }
}

impl Note {
    /// The note's name and extension as one path, which is how a filesystem would spell it.
    pub fn path(&self) -> (r: String)
        ensures
            r@ == path_of(self.name@, self.extension@),
    {
        if self.extension.as_str().unicode_len() == 0 {
            self.name.clone()
        } else {
            let mut path = self.name.clone();
            push_char(&mut path, '.');
            push_str(&mut path, self.extension.as_str());
            path
        }
    }
}

/// Note table entry `slot`.
pub open spec fn entry_at(image: Seq<u8>, slot: int) -> Seq<u8> {
    image.subrange(NOTE_TABLE_PAGE * PAGE + slot * NOTE_ENTRY, NOTE_TABLE_PAGE * PAGE + (slot + 1) * NOTE_ENTRY)
}

/// The page a note starts at.
pub open spec fn entry_start(e: Seq<u8>) -> int {
    be16(e, 6)
}

/// Whether an entry holds a note: one with no plausible start page is an empty slot.
pub open spec fn entry_used(e: Seq<u8>) -> bool {
    FIRST_DATA_PAGE <= entry_start(e) < PAGES
}

/// Whether a used entry's chain is a readable note, of some length.
pub open spec fn chain_readable(index: Seq<u16>, start: int) -> bool {
    exists|n: nat| chain_ends(index, start, n, FIRST_DATA_PAGE as int, PAGES as int, CHAIN_END)
}

/// How many pages a readable chain runs to.
pub open spec fn chain_length(index: Seq<u16>, start: int) -> nat {
    choose|n: nat| chain_ends(index, start, n, FIRST_DATA_PAGE as int, PAGES as int, CHAIN_END)
}

/// Whether every used entry's chain can be read through the chosen index table.
pub open spec fn notes_readable(image: Seq<u8>, index: Seq<u16>) -> bool {
    forall|slot: int|
        0 <= slot < NOTES && entry_used(#[trigger] entry_at(image, slot)) ==> chain_readable(
            index,
            entry_start(entry_at(image, slot)),
        )
}

/// The note a used entry describes.
pub open spec fn note_at(image: Seq<u8>, index: Seq<u16>, slot: int) -> NoteView {
    let e = entry_at(image, slot);
    NoteView {
        slot,
        game_code: ascii_text(graphic_only(e.subrange(0, 4))),
        name: font_text(e.subrange(0x10, 0x20)),
        extension: font_text(e.subrange(0x0C, 0x10)),
        dirent: e,
        data: gather_blocks(
            image,
            chain_seq(index, entry_start(e), chain_length(index, entry_start(e))),
            PAGE as int,
        ),
    }
}

/// The notes of the first `n` entries, in note table order.
pub open spec fn notes_upto(image: Seq<u8>, index: Seq<u16>, n: int) -> Seq<NoteView>
    decreases n,
{
    if n <= 0 {
        Seq::empty()
    } else if entry_used(entry_at(image, n - 1)) {
        notes_upto(image, index, n - 1).push(note_at(image, index, n - 1))
    } else {
        notes_upto(image, index, n - 1)
    }
}

/// What a listed note is: from a used entry below `n`, with its entry verbatim, and, for the one
/// length its chain through `index` runs to, the pages of that chain read in chain order, a
/// page's worth of bytes for each.
pub open spec fn listed_note(image: Seq<u8>, index: Seq<u16>, note: NoteView, n: int) -> bool {
    let start = entry_start(note.dirent);
    &&& 0 <= note.slot < n
    &&& note.dirent == entry_at(image, note.slot)
    &&& entry_used(note.dirent)
    &&& forall|pages: nat|
        #[trigger] chain_ends(index, start, pages, FIRST_DATA_PAGE as int, PAGES as int, CHAIN_END)
            ==> note.data == gather_blocks(image, chain_seq(index, start, pages), PAGE as int)
            && note.data.len() == PAGE * pages
}

/// The notes of the first `n` entries, read through `index`: in increasing slot order, each a
/// listed note.
proof fn lemma_notes_upto(image: Seq<u8>, index: Seq<u16>, n: int)
    requires
        image.len() == CAPACITY,
        0 <= n <= NOTES,
        notes_readable(image, index),
    ensures
        forall|a: int, b: int|
            0 <= a < b < notes_upto(image, index, n).len() ==> #[trigger] notes_upto(image, index, n)[a].slot
                < #[trigger] notes_upto(image, index, n)[b].slot,
        forall|k: int|
            0 <= k < notes_upto(image, index, n).len() ==> listed_note(
                image,
                index,
                #[trigger] notes_upto(image, index, n)[k],
                n,
            ),
    decreases n,
{
    if n > 0 {
        lemma_notes_upto(image, index, n - 1);
        let prev = notes_upto(image, index, n - 1);
        let now = notes_upto(image, index, n);
        let e = entry_at(image, n - 1);
        if entry_used(e) {
            assert(now == prev.push(note_at(image, index, n - 1)));
            let start = entry_start(e);
            assert(chain_readable(index, start));
            let len = chain_length(index, start);
            assert(chain_ends(index, start, len, FIRST_DATA_PAGE as int, PAGES as int, CHAIN_END));
            let note = note_at(image, index, n - 1);
            assert forall|pages: nat|
                #[trigger] chain_ends(index, start, pages, FIRST_DATA_PAGE as int, PAGES as int, CHAIN_END)
                implies note.data == gather_blocks(image, chain_seq(index, start, pages), PAGE as int)
                && note.data.len() == PAGE * pages by {
                crate::chain::lemma_one_length(
                    index,
                    start,
                    pages,
                    len,
                    FIRST_DATA_PAGE as int,
                    PAGES as int,
                    CHAIN_END,
                );
                let chain = chain_seq(index, start, pages);
                assert forall|k: int| 0 <= k < chain.len() implies (chain[k] + 1) * (PAGE as int)
                    <= image.len() by {
                    assert(FIRST_DATA_PAGE <= crate::chain::link(index, start, k as nat) < PAGES);
                }
                crate::chain::lemma_gather_len(image, chain, PAGE as int);
            }
            assert(listed_note(image, index, note, n));
            assert forall|k: int| 0 <= k < now.len() implies listed_note(image, index, #[trigger] now[k], n) by {
                if k < prev.len() {
                    assert(now[k] == prev[k]);
                    assert(listed_note(image, index, prev[k], n - 1));
                }
            }
            assert forall|a: int, b: int| 0 <= a < b < now.len() implies #[trigger] now[a].slot
                < #[trigger] now[b].slot by {
                assert(now[a] == prev[a]);
                if b < prev.len() {
                    assert(now[b] == prev[b]);
                } else {
                    assert(listed_note(image, index, prev[a], n - 1));
                }
            }
        } else {
            assert(now == prev);
            assert forall|k: int| 0 <= k < now.len() implies listed_note(image, index, #[trigger] now[k], n) by {
                assert(listed_note(image, index, prev[k], n - 1));
            }
        }
    }
}

/// A pak whose primary index table has an entry no chain could hold, and whose backup has none,
/// is read through the backup: each note's bytes are the pages of its chain as the backup links
/// them, in chain order, up to the page marked as the end. The notes come in strictly increasing
/// slot order, so two notes of one game and one name are still told apart by their slots.
/// [`ControllerPak::parse`] lists exactly `notes_upto(image, chosen_index(image)->0, NOTES)`.
pub proof fn lemma_a_pak_falls_back_to_its_backup(image: Seq<u8>)
    requires
        image.len() == CAPACITY,
        !table_plausible(index_words(image, INDEX_PAGE as int)),
        table_plausible(index_words(image, INDEX_BACKUP_PAGE as int)),
        notes_readable(image, index_words(image, INDEX_BACKUP_PAGE as int)),
    ensures
        chosen_index(image) == Some(index_words(image, INDEX_BACKUP_PAGE as int)),
        ({
            let backup = index_words(image, INDEX_BACKUP_PAGE as int);
            let notes = notes_upto(image, backup, NOTES as int);
            &&& forall|a: int, b: int|
                0 <= a < b < notes.len() ==> #[trigger] notes[a].slot < #[trigger] notes[b].slot
            &&& forall|k: int| 0 <= k < notes.len() ==> listed_note(image, backup, #[trigger] notes[k], NOTES as int)
        }),
{
    lemma_notes_upto(image, index_words(image, INDEX_BACKUP_PAGE as int), NOTES as int);
}

/// A pak image that could not be read, or could not be built.
#[derive(Debug, Clone, PartialEq, Eq)]
pub enum Error {
    /// The image is not the length a pak comes in.
    WrongLength(usize),
    /// Neither the index table nor its backup is readable, so nothing can be followed.
    NotAControllerPak,
    /// The image is structurally broken in a way that is not recoverable by guessing.
    Corrupt(String),
    /// The notes do not fit on a pak.
    Full {
        /// How many data pages they need.
        needed: usize,
        /// How many data pages a pak has.
        available: usize,
    },
    /// More notes than the note table has entries.
    TooManyNotes {
        /// How many were offered.
        given: usize,
        /// How many a pak holds.
        available: usize,
    },
}

/// Reads the index table, falling back to the backup copy when the primary is unusable.
fn index_table(bytes: &[u8]) -> (r: Result<Vec<u16>, Error>)
    requires
        bytes@.len() == CAPACITY,
    ensures
        r matches Ok(words) ==> chosen_index(bytes@) == Some(words@),
        r is Err ==> chosen_index(bytes@) is None && r == Err::<Vec<u16>, Error>(Error::NotAControllerPak),
{
    let primary = read_index(bytes, INDEX_PAGE);
    if all_plausible(&primary) {
        return Ok(primary);
    }
    let backup = read_index(bytes, INDEX_BACKUP_PAGE);
    if all_plausible(&backup) {
        return Ok(backup);
    }
    Err(Error::NotAControllerPak)
}

/// A parsed Controller Pak image.
#[derive(Debug)]
pub struct ControllerPak {
    image: Vec<u8>,
    notes: Vec<Note>,
}

/// What a parsed pak holds, as values.
pub struct ControllerPakView {
    pub image: Seq<u8>,
    pub notes: Seq<NoteView>,
}

impl View for ControllerPak {
    type V = ControllerPakView;

    closed spec fn view(&self) -> ControllerPakView {
        ControllerPakView { image: self.image@, notes: note_views(self.notes@) }
    }
}

impl Clone for ControllerPak {
    fn clone(&self) -> (r: Self)
        ensures
            r@.image == self@.image,
    {
        proof {
            use_type_invariant(self);
        }
        ControllerPak { image: copy_of(self.image.as_slice()), notes: self.notes.clone() }
    }
}

impl ControllerPak {
    /// The image is always a whole pak.
    #[verifier::type_invariant]
    spec fn whole(self) -> bool {
        self.image@.len() == CAPACITY
    }

    /// Reads a pak image.
    pub fn parse(bytes: &[u8]) -> (r: Result<ControllerPak, Error>)
        ensures
            r is Ok <==> bytes@.len() == CAPACITY && chosen_index(bytes@) is Some && notes_readable(
                bytes@,
                chosen_index(bytes@)->0,
            ),
            r matches Err(Error::WrongLength(_)) <==> bytes@.len() != CAPACITY,
            r matches Err(Error::WrongLength(n)) ==> n == bytes@.len(),
            r matches Err(Error::NotAControllerPak) <==> bytes@.len() == CAPACITY && chosen_index(
                bytes@,
            ) is None,
            r matches Err(Error::Corrupt(_)) <==> bytes@.len() == CAPACITY && chosen_index(bytes@) is Some
                && !notes_readable(bytes@, chosen_index(bytes@)->0),
            r matches Ok(pak) ==> pak@.image == bytes@ && pak@.notes == notes_upto(
                bytes@,
                chosen_index(bytes@)->0,
                NOTES as int,
            ),
    {
        if bytes.len() != CAPACITY {
            return Err(Error::WrongLength(bytes.len()));
        }
        let index = match index_table(bytes) {
            Ok(index) => index,
            Err(e) => {
                return Err(e);
            },
        };
        let ghost idx = index@;
        let mut notes: Vec<Note> = Vec::new();
        let mut slot: usize = 0;
        while slot < NOTES
            invariant
                slot <= NOTES,
                bytes@.len() == CAPACITY,
                index@ == idx,
                chosen_index(bytes@) == Some(idx),
                idx.len() == PAGES,
                forall|s: int|
                    0 <= s < slot && entry_used(#[trigger] entry_at(bytes@, s)) ==> chain_readable(
                        idx,
                        entry_start(entry_at(bytes@, s)),
                    ),
                note_views(notes@) == notes_upto(bytes@, idx, slot as int),
            decreases NOTES - slot,
        {
            let offset = NOTE_TABLE_PAGE * PAGE + slot * NOTE_ENTRY;
            let entry = &bytes[offset..offset + NOTE_ENTRY];
            assert(entry@ == entry_at(bytes@, slot as int));
            let start = read_be16(entry, 6) as usize;
            // A note with no plausible start page is an empty slot, not a broken pak.
            if start < FIRST_DATA_PAGE || start >= PAGES {
                slot = slot + 1;
                continue;
            }
            let chain = match follow_to_end(index.as_slice(), start, FIRST_DATA_PAGE, PAGES, CHAIN_END) {
                Some(chain) => chain,
                None => {
                    proof {
                        assert(!chain_readable(idx, start as int));
                        assert(entry_used(entry_at(bytes@, slot as int)));
                    }
                    return Err(Error::Corrupt("a note's page chain does not end where it should".to_owned()));
                },
            };
            proof {
                lemma_lists_chain(chain@, idx, start as int);
                assert(chain_readable(idx, start as int));
                let n = chain_length(idx, start as int);
                lemma_one_length(idx, start as int, n, chain@.len() as nat, FIRST_DATA_PAGE as int, PAGES as int, CHAIN_END);
                assert forall|k: int| 0 <= k < chain@.len() implies (chain@[k] + 1) * PAGE
                    <= bytes@.len() by {
                    assert(FIRST_DATA_PAGE <= link(idx, start as int, k as nat) < PAGES);
                }
            }
            let data = gather(bytes, chain.as_slice(), PAGE);
            let note = Note {
                slot,
                game_code: graphic_ascii(&entry[0..4]),
                name: decode(&entry[0x10..0x20]),
                extension: decode(&entry[0x0C..0x10]),
                dirent: copy_of(entry),
                data,
            };
            proof {
                let e = entry_at(bytes@, slot as int);
                assert(entry@.subrange(0, 4) =~= e.subrange(0, 4));
                assert(entry@.subrange(0x10, 0x20) =~= e.subrange(0x10, 0x20));
                assert(entry@.subrange(0x0C, 0x10) =~= e.subrange(0x0C, 0x10));
                assert(note@ == note_at(bytes@, idx, slot as int));
            }
            notes.push(note);
            proof {
                assert(note_views(notes@) =~= notes_upto(bytes@, idx, slot as int + 1));
            }
            slot = slot + 1;
        }
        Ok(ControllerPak { image: copy_of(bytes), notes })
    }

    /// Every note on the pak, in note table order.
    pub fn notes(&self) -> (r: &[Note])
        ensures
            note_views(r@) == self@.notes,
    {
        self.notes.as_slice()
    }

    /// Takes the notes, for a caller that is going to rebuild rather than read on.
    pub fn into_notes(self) -> (r: Vec<Note>)
        ensures
            note_views(r@) == self@.notes,
    {
        self.notes
    }

    /// The whole image.
    pub fn image(&self) -> (r: &[u8])
        ensures
            r@ == self@.image,
    {
        self.image.as_slice()
    }

    /// The pak's data capacity, which for this format is the whole pak.
    pub fn capacity(&self) -> (r: usize)
        ensures
            r == CAPACITY,
    {
        CAPACITY
    }

    /// The pak's own 32-byte label, out of the ID area.
    ///
    /// It belongs to no note, so a caller that splits a pak into its notes and keeps nothing else
    /// drops it.
    pub fn label(&self) -> (r: &[u8])
        ensures
            r@ == self@.image.take(NOTE_ENTRY as int),
    {
        proof {
            use_type_invariant(self);
        }
        &self.image[0..NOTE_ENTRY]
    }
}

} // verus!
