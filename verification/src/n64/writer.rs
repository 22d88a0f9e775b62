//! Writing a pak image out of a set of notes.
//!
//! The index table, its backup and the note table are all regenerated. A note's entry comes back
//! verbatim with only its start page rewritten: page placement is the allocator's business and
//! everything else in the entry is the game's.

use vstd::prelude::*;
use vstd::utf8::encode_utf8;
use crate::bytes::{
    be16, be16_bytes, be16_words, ceil_div, lemma_be16_words, push_all, push_repeated, push_words, units_of, zeros,
};
use crate::chain::{
    chain_ends, chain_seq, holds_run, lemma_gather_run, lemma_one_length, lemma_run_is_chained, push_repeated_links,
    push_run, run_links,
};
use crate::text::{ascii_text, graphic_only};
use crate::n64::font::{encode, font_field, font_text};
use crate::n64::{
    chain_length, chain_readable, chosen_index, entry_at, entry_start, entry_used, index_words, note_at, notes_readable,
    notes_upto, plausible_entry, table_plausible, CAPACITY, INDEX_PAGE, INDEX_BACKUP_PAGE, NOTE_TABLE_PAGE,
    note_views, Error, Note, NoteView, CHAIN_END, CHAIN_FREE, FIRST_DATA_PAGE, NOTES, NOTE_ENTRY, PAGE,
    PAGES,
};

verus! {

/// How many pages a note occupies: its bytes, rounded up to whole pages.
pub open spec fn pages_of(v: NoteView) -> int {
    units_of(v.data.len() as int, PAGE as int)
}

/// The pages the first `k` notes take together.
pub open spec fn pages_before(s: Seq<NoteView>, k: int) -> int
    decreases k,
{
    if k <= 0 {
        0
    } else {
        pages_before(s, k - 1) + pages_of(s[k - 1])
    }
}

/// The pages of the notes before any note are never more than those before a later one.
proof fn lemma_pages_before_grow(s: Seq<NoteView>, i: int, j: int)
    requires
        0 <= i <= j <= s.len(),
    ensures
        0 <= pages_before(s, i) <= pages_before(s, j),
    decreases j,
{
    if i < j {
        lemma_pages_before_grow(s, i, j - 1);
    } else if i > 0 {
        lemma_pages_before_grow(s, i - 1, i - 1);
    }
}

/// The first note, from note `i` on, that runs past the last page, as how many data pages the
/// notes up to it need.
pub open spec fn note_fault(s: Seq<NoteView>, i: int) -> Option<int>
    decreases s.len() - i,
{
    if i >= s.len() {
        None
    } else if FIRST_DATA_PAGE + pages_before(s, i) + pages_of(s[i]) > PAGES {
        Some(pages_before(s, i) + pages_of(s[i]))
    } else {
        note_fault(s, i + 1)
    }
}

/// A note's bytes padded with zeros to its last page.
pub open spec fn padded_note(v: NoteView) -> Seq<u8> {
    v.data + zeros(pages_of(v) * PAGE - v.data.len())
}

/// The pages of the first `k` notes, in order.
pub open spec fn note_area(s: Seq<NoteView>, k: int) -> Seq<u8>
    decreases k,
{
    if k <= 0 {
        Seq::empty()
    } else {
        note_area(s, k - 1) + padded_note(s[k - 1])
    }
}

/// The index table entries of the first `k` notes' chains.
pub open spec fn note_links(s: Seq<NoteView>, k: int) -> Seq<u16>
    decreases k,
{
    if k <= 0 {
        Seq::empty()
    } else {
        note_links(s, k - 1) + run_links(FIRST_DATA_PAGE + pages_before(s, k - 1), pages_of(s[k - 1]), CHAIN_END)
    }
}

/// The whole index table: zero for the pages before the data area, the notes' chains, and free
/// for every page left over.
pub open spec fn index_table(s: Seq<NoteView>) -> Seq<u16> {
    Seq::new(FIRST_DATA_PAGE as nat, |i: int| 0u16) + note_links(s, s.len() as int) + Seq::new(
        (PAGES - FIRST_DATA_PAGE - pages_before(s, s.len() as int)) as nat,
        |i: int| CHAIN_FREE,
    )
}

/// Page 0: as much of the label as fits an entry's length, then zeros.
pub open spec fn label_page(label: Option<Seq<u8>>) -> Seq<u8> {
    match label {
        Some(l) => {
            let len = if l.len() < NOTE_ENTRY { l.len() as int } else { NOTE_ENTRY as int };
            l.take(len) + zeros(PAGE - len)
        },
        None => zeros(PAGE as int),
    }
}

/// The entry a note built by hand gets: its game code in ASCII, then its extension and name in
/// the pak's font.
pub open spec fn hand_entry(v: NoteView) -> Seq<u8> {
    let code = encode_utf8(v.game_code);
    let len = if code.len() < 4 { code.len() as int } else { 4 };
    code.take(len) + zeros(12 - len) + font_field(v.extension, 4) + font_field(v.name, 16)
}

/// The entry a note brings, cut or padded to an entry's length.
pub open spec fn note_base(v: NoteView) -> Seq<u8> {
    let e = if v.dirent.len() > 0 { v.dirent } else { hand_entry(v) };
    if e.len() >= NOTE_ENTRY {
        e.take(NOTE_ENTRY as int)
    } else {
        e + zeros(NOTE_ENTRY - e.len())
    }
}

/// The note table entry note `i` is written with: its own, with its start page rewritten.
pub open spec fn note_entry_of(s: Seq<NoteView>, i: int) -> Seq<u8> {
    let first = be16_bytes(FIRST_DATA_PAGE + pages_before(s, i));
    note_base(s[i]).update(6, first[0]).update(7, first[1])
}

/// The first `k` note table slots: each note's entry, then zeros.
pub open spec fn note_table(s: Seq<NoteView>, k: int) -> Seq<u8>
    decreases k,
{
    if k <= 0 {
        Seq::empty()
    } else {
        note_table(s, k - 1) + if k - 1 < s.len() {
            note_entry_of(s, k - 1)
        } else {
            zeros(NOTE_ENTRY as int)
        }
    }
}

/// The image a set of notes and a label are written as: the label page, the index table and its
/// backup, the note table, then the notes' pages and zeros to the end.
pub open spec fn pak_image(s: Seq<NoteView>, label: Option<Seq<u8>>) -> Seq<u8> {
    label_page(label) + be16_words(index_table(s)) + be16_words(index_table(s)) + note_table(
        s,
        NOTES as int,
    ) + note_area(s, s.len() as int) + zeros((PAGES - FIRST_DATA_PAGE - pages_before(s, s.len() as int)) * PAGE)
}

/// Builds a pak image from notes.
#[derive(Debug, Clone)]
pub struct PakBuilder {
    notes: Vec<Note>,
    label: Option<Vec<u8>>,
}

/// What a builder holds, as values.
pub struct PakBuilderView {
    pub notes: Seq<NoteView>,
    pub label: Option<Seq<u8>>,
}

impl View for PakBuilder {
    type V = PakBuilderView;

    closed spec fn view(&self) -> PakBuilderView {
        PakBuilderView {
            notes: note_views(self.notes@),
            label: match self.label {
                Some(l) => Some(l@),
                None => None,
            },
        }
    }
}

impl Default for PakBuilder {
    /// A builder for an empty pak.
    fn default() -> (r: Self)
        ensures
            r@.notes == Seq::<NoteView>::empty(),
            r@.label is None,
    {
        let r = PakBuilder { notes: Vec::new(), label: None };
        assert(r@.notes =~= Seq::<NoteView>::empty());
        r
    }
}

/// The entry a note brings, cut or padded to an entry's length.
fn base_entry(note: &Note) -> (r: Vec<u8>)
    ensures
        r@ == note_base(note@),
{
    let mut e: Vec<u8> = Vec::new();
    if note.dirent.len() > 0 {
        push_all(&mut e, note.dirent.as_slice());
    } else {
        let code = note.game_code.as_str().as_bytes();
        let len = if code.len() < 4 {
            code.len()
        } else {
            4
        };
        push_all(&mut e, &code[0..len]);
        push_repeated(&mut e, 0, 12 - len);
        let extension = encode(note.extension.as_str(), 4);
        push_all(&mut e, extension.as_slice());
        let name = encode(note.name.as_str(), 16);
        push_all(&mut e, name.as_slice());
        proof {
            assert(code@.subrange(0, len as int) =~= encode_utf8(note@.game_code).take(len as int));
            assert(e@ =~= hand_entry(note@));
        }
    }
    let ghost brought = e@;
    if e.len() >= NOTE_ENTRY {
        e.truncate(NOTE_ENTRY);
        assert(e@ =~= brought.take(NOTE_ENTRY as int));
    } else {
        let missing = NOTE_ENTRY - e.len();
        push_repeated(&mut e, 0, missing);
        assert(e@ =~= brought + zeros(NOTE_ENTRY - brought.len()));
    }
    e
}

impl PakBuilder {
    /// A builder for an empty pak.
    pub fn new() -> (r: Self)
        ensures
            r@.notes == Seq::<NoteView>::empty(),
            r@.label is None,
    {
        Self::default()
    }

    /// Keeps the 32-byte label read off another pak, which belongs to no note.
    ///
    /// More than 32 bytes is truncated; fewer is written as far as it goes.
    pub fn label(&mut self, bytes: Vec<u8>) -> (r: &mut Self)
        ensures
            r@.notes == old(self)@.notes,
            r@.label == Some(bytes@),
            final(self)@ == final(r)@,
    {
        self.label = Some(bytes);
        self
    }

    /// Adds a note. Its `slot` is ignored: the note table index is the order notes are added in.
    pub fn add(&mut self, note: Note) -> (r: &mut Self)
        ensures
            r@.notes == old(self)@.notes.push(note@),
            r@.label == old(self)@.label,
            final(self)@ == final(r)@,
    {
        self.notes.push(note);
        proof {
            assert(note_views(self.notes@) =~= note_views(old(self).notes@).push(note@));
        }
        self
    }

    /// Writes the pak out, all 32 KiB of it.
    pub fn build(&self) -> (r: Result<Vec<u8>, Error>)
        ensures
            self@.notes.len() > NOTES ==> (r matches Err(Error::TooManyNotes { given, available }) && given
                == self@.notes.len() && available == NOTES),
            self@.notes.len() <= NOTES ==> match note_fault(self@.notes, 0) {
                Some(needed) => r matches Err(Error::Full { needed: x, available: y }) && x == needed && y
                    == PAGES - FIRST_DATA_PAGE,
                None => r matches Ok(image) && image@ == pak_image(self@.notes, self@.label),
            },
    {
        let ghost s = note_views(self.notes@);
        let n = self.notes.len();
        if n > NOTES {
            return Err(Error::TooManyNotes { given: n, available: NOTES });
        }
        let mut data: Vec<u8> = Vec::new();
        let mut links: Vec<u16> = Vec::new();
        push_repeated_links(&mut links, 0, FIRST_DATA_PAGE);
        let mut firsts: Vec<usize> = Vec::new();
        let mut next: usize = FIRST_DATA_PAGE;
        let mut i: usize = 0;
        while i < n
            invariant
                s == note_views(self.notes@),
                n == s.len(),
                n <= NOTES,
                i <= n,
                next == FIRST_DATA_PAGE + pages_before(s, i as int),
                FIRST_DATA_PAGE <= next <= PAGES,
                note_fault(s, 0) == note_fault(s, i as int),
                data@ == note_area(s, i as int),
                links@ == Seq::new(FIRST_DATA_PAGE as nat, |k: int| 0u16) + note_links(s, i as int),
                firsts@.len() == i,
                forall|j: int| 0 <= j < i ==> #[trigger] firsts@[j] == FIRST_DATA_PAGE + pages_before(s, j),
            decreases n - i,
        {
            let note = &self.notes[i];
            assert(note@ == s[i as int]);
            let len = note.data.len();
            let pages = ceil_div(len, PAGE);
            if next + pages > PAGES {
                return Err(Error::Full { needed: next - FIRST_DATA_PAGE + pages, available: PAGES - FIRST_DATA_PAGE });
            }
            push_all(&mut data, note.data.as_slice());
            push_repeated(&mut data, 0, pages * PAGE - len);
            push_run(&mut links, next, pages, CHAIN_END);
            firsts.push(next);
            proof {
                assert(Seq::new((pages * PAGE - len) as nat, |k: int| 0u8) =~= zeros(
                    pages_of(s[i as int]) * PAGE - s[i as int].data.len(),
                ));
                assert(data@ =~= note_area(s, i + 1));
                assert(links@ =~= Seq::new(FIRST_DATA_PAGE as nat, |k: int| 0u16) + note_links(s, i + 1));
            }
            next = next + pages;
            i = i + 1;
        }
        push_repeated_links(&mut links, CHAIN_FREE, PAGES - next);
        assert(links@ =~= index_table(s));
        proof {
            assert forall|j: int| 0 <= j < n implies FIRST_DATA_PAGE + #[trigger] pages_before(s, j) <= PAGES by {
                lemma_pages_before_grow(s, j, n as int);
            }
        }
        let mut image: Vec<u8> = Vec::new();
        match &self.label {
            Some(label) => {
                let len = if label.len() < NOTE_ENTRY {
                    label.len()
                } else {
                    NOTE_ENTRY
                };
                push_all(&mut image, &label.as_slice()[0..len]);
                push_repeated(&mut image, 0, PAGE - len);
                assert(image@ =~= label_page(self@.label));
            },
            None => {
                push_repeated(&mut image, 0, PAGE);
                assert(image@ =~= label_page(self@.label));
            },
        }
        push_words(&mut image, links.as_slice(), true);
        push_words(&mut image, links.as_slice(), true);
        let ghost before_table = image@;
        let mut slot: usize = 0;
        while slot < NOTES
            invariant
                slot <= NOTES,
                s == note_views(self.notes@),
                n == s.len(),
                n <= NOTES,
                firsts@.len() == n,
                forall|j: int| 0 <= j < n ==> #[trigger] firsts@[j] == FIRST_DATA_PAGE + pages_before(s, j),
                forall|j: int| 0 <= j < n ==> FIRST_DATA_PAGE + #[trigger] pages_before(s, j) <= PAGES,
                image@ == before_table + note_table(s, slot as int),
            decreases NOTES - slot,
        {
            if slot < n {
                let mut entry = base_entry(&self.notes[slot]);
                assert(self.notes@[slot as int]@ == s[slot as int]);
                let first = firsts[slot];
                entry.set(6, (first / 0x100) as u8);
                entry.set(7, (first % 0x100) as u8);
                push_all(&mut image, entry.as_slice());
            } else {
                push_repeated(&mut image, 0, NOTE_ENTRY);
                assert(Seq::new(NOTE_ENTRY as nat, |k: int| 0u8) =~= zeros(NOTE_ENTRY as int));
            }
            slot = slot + 1;
        }
        push_all(&mut image, data.as_slice());
        push_repeated(&mut image, 0, (PAGES - next) * PAGE);
        assert(Seq::new(((PAGES - next) * PAGE) as nat, |k: int| 0u8) =~= zeros(
            (PAGES - FIRST_DATA_PAGE - pages_before(s, s.len() as int)) * PAGE,
        ));
        Ok(image)
    }
}

// ---------------------------------------------------------------------------------------------
// What is written reads back.

/// What note `i` reads back as: in the slot it was added at, with the entry it was written with,
/// the codes and name that entry carries, and its bytes padded to whole pages.
pub open spec fn written_note(s: Seq<NoteView>, i: int) -> NoteView {
    let e = note_entry_of(s, i);
    NoteView {
        slot: i,
        game_code: ascii_text(graphic_only(e.subrange(0, 4))),
        name: font_text(e.subrange(0x10, 0x20)),
        extension: font_text(e.subrange(0x0C, 0x10)),
        dirent: e,
        data: padded_note(s[i]),
    }
}

/// With no note refused, every note fits below the last page, and so do they all.
proof fn lemma_notes_fit(s: Seq<NoteView>, i: int)
    requires
        0 <= i <= s.len(),
        note_fault(s, i) is None,
        FIRST_DATA_PAGE + pages_before(s, i) <= PAGES,
    ensures
        FIRST_DATA_PAGE + pages_before(s, s.len() as int) <= PAGES,
        forall|j: int|
            i <= j < s.len() ==> FIRST_DATA_PAGE + pages_before(s, j) + pages_of(#[trigger] s[j]) <= PAGES,
    decreases s.len() - i,
{
    if i < s.len() {
        lemma_notes_fit(s, i + 1);
    }
}

/// A note's bytes padded to its pages are exactly its pages long.
proof fn lemma_padded_note_len(v: NoteView)
    ensures
        pages_of(v) >= 0,
        pages_of(v) * PAGE >= v.data.len(),
        padded_note(v).len() == pages_of(v) * PAGE,
{
}

/// The notes' pages, laid end to end.
proof fn lemma_note_area(s: Seq<NoteView>, k: int)
    requires
        0 <= k <= s.len(),
    ensures
        note_area(s, k).len() == pages_before(s, k) * PAGE,
        forall|j: int|
            0 <= j < k ==> #[trigger] note_area(s, k).subrange(
                pages_before(s, j) * PAGE,
                (pages_before(s, j) + pages_of(s[j])) * PAGE,
            ) == padded_note(s[j]),
    decreases k,
{
    if k > 0 {
        lemma_note_area(s, k - 1);
        lemma_padded_note_len(s[k - 1]);
        let prev = note_area(s, k - 1);
        let cur = note_area(s, k);
        assert(cur == prev + padded_note(s[k - 1]));
        assert forall|j: int| 0 <= j < k implies #[trigger] cur.subrange(
            pages_before(s, j) * PAGE,
            (pages_before(s, j) + pages_of(s[j])) * PAGE,
        ) == padded_note(s[j]) by {
            lemma_padded_note_len(s[j]);
            lemma_pages_before_grow(s, 0, j);
            if j < k - 1 {
                lemma_pages_before_grow(s, j + 1, k - 1);
                assert(cur.subrange(pages_before(s, j) * PAGE, (pages_before(s, j) + pages_of(s[j])) * PAGE)
                    =~= prev.subrange(pages_before(s, j) * PAGE, (pages_before(s, j) + pages_of(s[j])) * PAGE));
            } else {
                assert(cur.subrange(pages_before(s, j) * PAGE, (pages_before(s, j) + pages_of(s[j])) * PAGE)
                    =~= padded_note(s[j]));
            }
        }
    }
}

/// The notes' chains, laid end to end; every entry of them is one a reader finds plausible.
proof fn lemma_note_links(s: Seq<NoteView>, k: int)
    requires
        0 <= k <= s.len(),
        FIRST_DATA_PAGE + pages_before(s, k) <= PAGES,
    ensures
        note_links(s, k).len() == pages_before(s, k),
        forall|j: int, m: int|
            0 <= j < k && 0 <= m < pages_of(s[j]) ==> #[trigger] note_links(s, k)[pages_before(s, j) + m]
                == #[trigger] run_links(FIRST_DATA_PAGE + pages_before(s, j), pages_of(s[j]), CHAIN_END)[m],
        forall|x: int| 0 <= x < note_links(s, k).len() ==> plausible_entry(#[trigger] note_links(s, k)[x]),
    decreases k,
{
    if k > 0 {
        lemma_padded_note_len(s[k - 1]);
        lemma_pages_before_grow(s, k - 1, k);
        lemma_note_links(s, k - 1);
        let prev = note_links(s, k - 1);
        let tail = run_links(FIRST_DATA_PAGE + pages_before(s, k - 1), pages_of(s[k - 1]), CHAIN_END);
        let cur = note_links(s, k);
        assert(cur == prev + tail);
        assert forall|j: int, m: int| 0 <= j < k && 0 <= m < pages_of(s[j]) implies #[trigger] cur[pages_before(s, j)
            + m] == #[trigger] run_links(FIRST_DATA_PAGE + pages_before(s, j), pages_of(s[j]), CHAIN_END)[m] by {
            lemma_padded_note_len(s[j]);
            lemma_pages_before_grow(s, 0, j);
            if j < k - 1 {
                lemma_pages_before_grow(s, j + 1, k - 1);
                assert(cur[pages_before(s, j) + m] == prev[pages_before(s, j) + m]);
            }
        }
        assert forall|x: int| 0 <= x < cur.len() implies plausible_entry(#[trigger] cur[x]) by {
            if x >= prev.len() {
                assert(cur[x] == tail[x - prev.len()]);
            } else {
                assert(cur[x] == prev[x]);
            }
        }
    }
}

/// A note table is an entry long per slot, and each slot holds its note's entry or zeros.
proof fn lemma_note_table(s: Seq<NoteView>, k: int)
    requires
        0 <= k,
    ensures
        note_table(s, k).len() == k * NOTE_ENTRY,
        forall|e: int|
            0 <= e < k ==> #[trigger] note_table(s, k).subrange(e * NOTE_ENTRY, e * NOTE_ENTRY + NOTE_ENTRY) == if e
                < s.len() {
                note_entry_of(s, e)
            } else {
                zeros(NOTE_ENTRY as int)
            },
    decreases k,
{
    if k > 0 {
        lemma_note_table(s, k - 1);
        if k - 1 < s.len() {
            let v = s[k - 1];
            assert(font_field(v.extension, 4).len() == 4);
            assert(font_field(v.name, 16).len() == 16);
            assert(hand_entry(v).len() == NOTE_ENTRY);
            assert(note_base(v).len() == NOTE_ENTRY);
        }
        let prev = note_table(s, k - 1);
        let cur = note_table(s, k);
        assert forall|e: int| 0 <= e < k implies #[trigger] cur.subrange(e * NOTE_ENTRY, e * NOTE_ENTRY + NOTE_ENTRY)
            == if e < s.len() {
            note_entry_of(s, e)
        } else {
            zeros(NOTE_ENTRY as int)
        } by {
            if e < k - 1 {
                assert(cur.subrange(e * NOTE_ENTRY, e * NOTE_ENTRY + NOTE_ENTRY) =~= prev.subrange(
                    e * NOTE_ENTRY,
                    e * NOTE_ENTRY + NOTE_ENTRY,
                ));
            } else {
                assert(cur.subrange(e * NOTE_ENTRY, e * NOTE_ENTRY + NOTE_ENTRY) =~= if e < s.len() {
                    note_entry_of(s, e)
                } else {
                    zeros(NOTE_ENTRY as int)
                });
            }
        }
    }
}

/// Where each part of a written pak sits.
proof fn lemma_pak_parts(s: Seq<NoteView>, label: Option<Seq<u8>>)
    requires
        note_fault(s, 0) is None,
    ensures
        FIRST_DATA_PAGE + pages_before(s, s.len() as int) <= PAGES,
        index_table(s).len() == PAGES,
        pak_image(s, label).len() == CAPACITY,
        pak_image(s, label).subrange(INDEX_PAGE * PAGE, (INDEX_PAGE + 1) * PAGE) == be16_words(index_table(s)),
        pak_image(s, label).subrange(NOTE_TABLE_PAGE * PAGE, FIRST_DATA_PAGE * PAGE) == note_table(s, NOTES as int),
        pak_image(s, label).subrange(
            FIRST_DATA_PAGE * PAGE,
            (FIRST_DATA_PAGE + pages_before(s, s.len() as int)) * PAGE,
        ) == note_area(s, s.len() as int),
{
    let n = s.len() as int;
    lemma_notes_fit(s, 0);
    lemma_pages_before_grow(s, 0, n);
    lemma_note_area(s, n);
    lemma_note_links(s, n);
    lemma_note_table(s, NOTES as int);
    lemma_be16_words(index_table(s));
    let l = label_page(label);
    let i = be16_words(index_table(s));
    let t = note_table(s, NOTES as int);
    let a = note_area(s, n);
    let z = zeros((PAGES - FIRST_DATA_PAGE - pages_before(s, n)) * PAGE);
    assert(l.len() == PAGE);
    let image = pak_image(s, label);
    assert(image == l + i + i + t + a + z);
    assert(image.subrange(INDEX_PAGE * PAGE, (INDEX_PAGE + 1) * PAGE) =~= i);
    assert(image.subrange(NOTE_TABLE_PAGE * PAGE, FIRST_DATA_PAGE * PAGE) =~= t);
    assert(image.subrange(FIRST_DATA_PAGE * PAGE, (FIRST_DATA_PAGE + pages_before(s, n)) * PAGE) =~= a);
}

/// The index table a written pak is read through is the one it was written with, and it passes.
proof fn lemma_index_written(s: Seq<NoteView>, label: Option<Seq<u8>>)
    requires
        note_fault(s, 0) is None,
    ensures
        chosen_index(pak_image(s, label)) == Some(index_table(s)),
{
    let n = s.len() as int;
    lemma_pak_parts(s, label);
    lemma_note_links(s, n);
    let index = index_table(s);
    let image = pak_image(s, label);
    let w = be16_words(index);
    lemma_be16_words(index);
    assert forall|i: int| 0 <= i < PAGES implies #[trigger] index_words(image, INDEX_PAGE as int)[i] == index[i] by {
        assert(image[INDEX_PAGE * PAGE + 2 * i] == w[2 * i]);
        assert(image[INDEX_PAGE * PAGE + 2 * i + 1] == w[2 * i + 1]);
        assert(be16(w, 2 * i) == index[i]);
    }
    assert(index_words(image, INDEX_PAGE as int) =~= index);
    let links = note_links(s, n);
    assert forall|i: int| FIRST_DATA_PAGE <= i < PAGES implies plausible_entry(#[trigger] index[i]) by {
        if i < FIRST_DATA_PAGE + links.len() {
            assert(index[i] == links[i - FIRST_DATA_PAGE]);
        }
    }
}

/// A note's run is chained in the index table, and its pages hold its padded bytes.
proof fn lemma_note_written(s: Seq<NoteView>, label: Option<Seq<u8>>, i: int)
    requires
        note_fault(s, 0) is None,
        0 <= i < s.len(),
        pages_of(s[i]) >= 1,
    ensures
        chain_ends(
            index_table(s),
            FIRST_DATA_PAGE + pages_before(s, i),
            pages_of(s[i]) as nat,
            FIRST_DATA_PAGE as int,
            PAGES as int,
            CHAIN_END,
        ),
        chain_seq(index_table(s), FIRST_DATA_PAGE + pages_before(s, i), pages_of(s[i]) as nat) == Seq::new(
            pages_of(s[i]) as nat,
            |k: int| (FIRST_DATA_PAGE + pages_before(s, i) + k) as usize,
        ),
        pak_image(s, label).subrange(
            (FIRST_DATA_PAGE + pages_before(s, i)) * PAGE,
            (FIRST_DATA_PAGE + pages_before(s, i) + pages_of(s[i])) * PAGE,
        ) == padded_note(s[i]),
{
    let n = s.len() as int;
    lemma_pak_parts(s, label);
    lemma_notes_fit(s, 0);
    lemma_note_links(s, n);
    lemma_note_area(s, n);
    lemma_pages_before_grow(s, 0, i);
    lemma_pages_before_grow(s, i + 1, n);
    lemma_padded_note_len(s[i]);
    let f = FIRST_DATA_PAGE + pages_before(s, i);
    let p = pages_of(s[i]);
    let index = index_table(s);
    let links = note_links(s, n);
    assert forall|m: int| 0 <= m < p implies #[trigger] index[f + m] == if m + 1 == p {
        CHAIN_END
    } else {
        (f + m + 1) as u16
    } by {
        assert(index[f + m] == links[pages_before(s, i) + m]);
        assert(links[pages_before(s, i) + m] == run_links(f, p, CHAIN_END)[m]);
    }
    lemma_run_is_chained(index, f, p, FIRST_DATA_PAGE as int, PAGES as int, CHAIN_END);
    let image = pak_image(s, label);
    let a = note_area(s, n);
    assert(image.subrange(f * PAGE, (f + p) * PAGE) =~= a.subrange(
        pages_before(s, i) * PAGE,
        (pages_before(s, i) + p) * PAGE,
    ));
}

/// Each slot of a written pak reads back: a note's slot as that note was written, any other as
/// empty.
proof fn lemma_note_slot_reads_back(s: Seq<NoteView>, label: Option<Seq<u8>>, slot: int)
    requires
        s.len() <= NOTES,
        note_fault(s, 0) is None,
        forall|i: int| 0 <= i < s.len() ==> pages_of(#[trigger] s[i]) >= 1,
        0 <= slot < NOTES,
    ensures
        slot < s.len() ==> entry_used(entry_at(pak_image(s, label), slot)) && chain_readable(
            index_table(s),
            entry_start(entry_at(pak_image(s, label), slot)),
        ) && note_at(pak_image(s, label), index_table(s), slot) == written_note(s, slot),
        slot >= s.len() ==> !entry_used(entry_at(pak_image(s, label), slot)),
{
    let n = s.len() as int;
    let image = pak_image(s, label);
    lemma_pak_parts(s, label);
    lemma_note_table(s, NOTES as int);
    let t = note_table(s, NOTES as int);
    assert(entry_at(image, slot) =~= t.subrange(slot * NOTE_ENTRY, slot * NOTE_ENTRY + NOTE_ENTRY));
    if slot < n {
        let e = note_entry_of(s, slot);
        let f = FIRST_DATA_PAGE + pages_before(s, slot);
        let p = pages_of(s[slot]);
        lemma_notes_fit(s, 0);
        lemma_pages_before_grow(s, 0, slot);
        assert(entry_start(e) == f);
        lemma_note_written(s, label, slot);
        let index = index_table(s);
        assert(chain_readable(index, f));
        let len = chain_length(index, f);
        lemma_one_length(index, f, len, p as nat, FIRST_DATA_PAGE as int, PAGES as int, CHAIN_END);
        lemma_gather_run(image, f, p, PAGE as int);
        assert(note_at(image, index, slot) =~= written_note(s, slot));
    }
}

/// The notes of a written pak's first `k` slots.
proof fn lemma_notes_written(s: Seq<NoteView>, label: Option<Seq<u8>>, k: int)
    requires
        s.len() <= NOTES,
        note_fault(s, 0) is None,
        forall|i: int| 0 <= i < s.len() ==> pages_of(#[trigger] s[i]) >= 1,
        0 <= k <= NOTES,
    ensures
        notes_upto(pak_image(s, label), index_table(s), k) == Seq::new(
            if k < s.len() { k as nat } else { s.len() },
            |i: int| written_note(s, i),
        ),
    decreases k,
{
    if k > 0 {
        lemma_notes_written(s, label, k - 1);
        lemma_note_slot_reads_back(s, label, k - 1);
        let prev = Seq::new(if k - 1 < s.len() { (k - 1) as nat } else { s.len() }, |i: int| written_note(s, i));
        let cur = Seq::new(if k < s.len() { k as nat } else { s.len() }, |i: int| written_note(s, i));
        if k - 1 < s.len() {
            assert(cur =~= prev.push(written_note(s, k - 1)));
        } else {
            assert(cur =~= prev);
        }
    }
}

/// What a pak is written as reads back as that pak: a whole pak whose index table passes and
/// is the one written, with every note's chain readable; and its notes are the ones added, in the
/// order they were added, each in the slot it was added at, with the entry it was written with
/// and its bytes padded to whole pages. A note with no bytes takes no page, so its entry would
/// point at whatever follows it: every note here has at least one byte.
pub proof fn lemma_a_written_pak_reads_back(s: Seq<NoteView>, label: Option<Seq<u8>>)
    requires
        s.len() <= NOTES,
        note_fault(s, 0) is None,
        forall|i: int| 0 <= i < s.len() ==> pages_of(#[trigger] s[i]) >= 1,
    ensures
        pak_image(s, label).len() == CAPACITY,
        chosen_index(pak_image(s, label)) == Some(index_table(s)),
        notes_readable(pak_image(s, label), index_table(s)),
        notes_upto(pak_image(s, label), index_table(s), NOTES as int) == Seq::new(
            s.len(),
            |i: int| written_note(s, i),
        ),
{
    let image = pak_image(s, label);
    lemma_pak_parts(s, label);
    lemma_index_written(s, label);
    assert forall|slot: int| 0 <= slot < NOTES && entry_used(#[trigger] entry_at(image, slot)) implies chain_readable(
        index_table(s),
        entry_start(entry_at(image, slot)),
    ) by {
        lemma_note_slot_reads_back(s, label, slot);
    }
    lemma_notes_written(s, label, NOTES as int);
}

} // verus!
