//! Resolving a ROM's digest into a canonical name through a DAT catalog.
//!
//! No-Intro, Redump, TOSEC and MAME all publish their sets as DAT files, in one of two shapes:
//! Logiqx XML and the older ClrMamePro text format. Reading either is datary's job; what is here
//! is the mapping onto one [`Entry`] per dump, and the lookups a catalog answers.
//!
//! A catalog is matched **by digest, never by filename**. A filename says what somebody called
//! the file; a digest says which dump it is, and that is the question a catalog answers.

use vstd::prelude::*;
use crate::bytes::{copy_of, push_be32, be32_bytes, same_bytes};
use crate::error::Error;
use crate::rom::{digest_views, opt_text, Game, HashAlgorithm, RomHash};

verus! {

/// A digest as values: which algorithm, and its bytes.
pub type DigestView = (HashAlgorithm, Seq<u8>);

/// One dump of a datafile, as values.
pub struct DatRomView {
    pub name: Seq<char>,
    pub size: u64,
    pub crc: Option<u32>,
    pub md5: Option<Seq<u8>>,
    pub sha1: Option<Seq<u8>>,
    pub sha256: Option<Seq<u8>>,
    pub serial: Option<Seq<char>>,
}

/// One game of a datafile and its dumps, as values.
pub struct DatGameView {
    pub name: Seq<char>,
    pub roms: Seq<DatRomView>,
}

/// A whole datafile, as values.
pub struct DatafileView {
    pub name: Option<Seq<char>>,
    pub games: Seq<DatGameView>,
}

/// One dump as a datafile describes it.
pub struct DatRom {
    /// The dump's filename in the set.
    pub name: String,
    /// Its size in bytes.
    pub size: u64,
    /// Its CRC-32.
    pub crc: Option<u32>,
    /// Its MD5.
    pub md5: Option<Vec<u8>>,
    /// Its SHA-1.
    pub sha1: Option<Vec<u8>>,
    /// Its SHA-256.
    pub sha256: Option<Vec<u8>>,
    /// Its product code.
    pub serial: Option<String>,
}

/// The view of optional bytes.
pub open spec fn opt_bytes(o: Option<Vec<u8>>) -> Option<Seq<u8>> {
    match o {
        Some(b) => Some(b@),
        None => None,
    }
}

impl View for DatRom {
    type V = DatRomView;

    open spec fn view(&self) -> DatRomView {
        DatRomView {
            name: self.name@,
            size: self.size,
            crc: self.crc,
            md5: opt_bytes(self.md5),
            sha1: opt_bytes(self.sha1),
            sha256: opt_bytes(self.sha256),
            serial: opt_text(self.serial),
        }
    }
}

#[verifier::external_type_specification]
#[verifier::external_body]
pub struct ExDatafile(datary::Datafile);

/// The name for the header name of what datary read, where the datafile has a header.
pub uninterp spec fn datafile_title(datafile: datary::Datafile) -> Option<Seq<char>>;

/// The name for the games of what datary read, each with its dumps, in the datafile's order.
pub uninterp spec fn datafile_games(datafile: datary::Datafile) -> Seq<DatGameView>;

/// The name for what `datary::from_str` makes of a text: a datafile, or the error's text.
pub uninterp spec fn parsed_datafile(text: Seq<char>) -> Result<DatafileView, Seq<char>>;

/// What a datafile holds, as values.
pub open spec fn datafile_view(datafile: datary::Datafile) -> DatafileView {
    DatafileView { name: datafile_title(datafile), games: datafile_games(datafile) }
}

/// `datary::from_str`: reads a datafile in either syntax, detected from the text. What it reads
/// is named, not stated; an error comes back as its text.
#[verifier::external_body]
fn read_datafile(text: &str) -> (r: Result<datary::Datafile, String>)
    ensures
        match r {
            Ok(datafile) => parsed_datafile(text@) == Ok::<DatafileView, Seq<char>>(
                datafile_view(datafile),
            ),
            Err(why) => parsed_datafile(text@) == Err::<DatafileView, Seq<char>>(why@),
        },
{
    match datary::from_str(text) {
        Ok(datafile) => Ok(datafile),
        Err(error) => Err(error.to_string()),
    }
}

/// `Datafile::header`: the header's name, where there is a header.
#[verifier::external_body]
fn header_name(datafile: &datary::Datafile) -> (r: Option<String>)
    ensures
        opt_text(r) == datafile_title(*datafile),
{
    datafile.header.as_ref().map(|header| header.name.clone())
}

/// `Datafile::games`: how many games the datafile lists.
#[verifier::external_body]
fn game_count(datafile: &datary::Datafile) -> (r: usize)
    ensures
        r == datafile_games(*datafile).len(),
{
    datafile.games.len()
}

/// `Game::name` of one game.
#[verifier::external_body]
fn game_name(datafile: &datary::Datafile, game: usize) -> (r: String)
    requires
        game < datafile_games(*datafile).len(),
    ensures
        r@ == datafile_games(*datafile)[game as int].name,
{
    datafile.games[game].name.clone()
}

/// `Game::roms`: how many dumps one game lists.
#[verifier::external_body]
fn rom_count(datafile: &datary::Datafile, game: usize) -> (r: usize)
    requires
        game < datafile_games(*datafile).len(),
    ensures
        r == datafile_games(*datafile)[game as int].roms.len(),
{
    datafile.games[game].roms.len()
}

/// One `Rom` of one game, its digests as bytes.
#[verifier::external_body]
fn rom_at(datafile: &datary::Datafile, game: usize, rom: usize) -> (r: DatRom)
    requires
        game < datafile_games(*datafile).len(),
        rom < datafile_games(*datafile)[game as int].roms.len(),
    ensures
        r@ == datafile_games(*datafile)[game as int].roms[rom as int],
{
    let found = &datafile.games[game].roms[rom];
    DatRom {
        name: found.name.clone(),
        size: found.size,
        crc: found.crc.map(|crc| crc.0),
        md5: found.md5.as_ref().map(|digest| digest.as_bytes().to_vec()),
        sha1: found.sha1.as_ref().map(|digest| digest.as_bytes().to_vec()),
        sha256: found.sha256.as_ref().map(|digest| digest.as_bytes().to_vec()),
        serial: found.serial.clone(),
    }
}

/// One entry in a catalog: a dump, and the game it belongs to.
#[derive(Debug, Clone, PartialEq, Eq)]
pub struct Entry {
    /// The game's canonical name, as the catalog spells it.
    pub name: String,
    /// The dump's filename in the set.
    pub rom_name: String,
    /// The dump's size in bytes, when the catalog states one.
    pub size: Option<u64>,
    /// Every digest the catalog carries for this dump, ascending by tag.
    pub hashes: Vec<RomHash>,
    /// The product code, when the catalog carries one.
    pub serial: Option<String>,
}

/// An entry, as values.
pub struct EntryView {
    pub name: Seq<char>,
    pub rom_name: Seq<char>,
    pub size: Option<u64>,
    pub hashes: Seq<DigestView>,
    pub serial: Option<Seq<char>>,
}

impl View for Entry {
    type V = EntryView;

    open spec fn view(&self) -> EntryView {
        EntryView {
            name: self.name@,
            rom_name: self.rom_name@,
            size: self.size,
            hashes: digest_views(self.hashes@),
            serial: opt_text(self.serial),
        }
    }
}

/// The views of a run of entries.
pub open spec fn entry_views(entries: Seq<Entry>) -> Seq<EntryView> {
    Seq::new(entries.len(), |i: int| entries[i]@)
}

/// A catalog, as values.
pub struct CatalogView {
    pub name: Option<Seq<char>>,
    pub entries: Seq<EntryView>,
}

/// A parsed DAT catalog.
#[derive(Debug, Clone)]
pub struct Catalog {
    /// The catalog's own name, out of its header.
    pub name: Option<String>,
    entries: Vec<Entry>,
}

impl View for Catalog {
    type V = CatalogView;

    closed spec fn view(&self) -> CatalogView {
        CatalogView { name: opt_text(self.name), entries: entry_views(self.entries@) }
    }
}

/// Where a digest sorts in a hash array: ascending by tag number, which puts SHA-256 first, then
/// SHA-1, CRC-32 and MD5.
pub open spec fn tag_rank(algorithm: HashAlgorithm) -> int {
    match algorithm {
        HashAlgorithm::Sha256 => 0,
        HashAlgorithm::Sha1 => 1,
        HashAlgorithm::Crc32 => 2,
        HashAlgorithm::Md5 => 3,
    }
}

/// How much a match on a digest is worth, strongest first: a CRC-32 collision is cheap to
/// produce and a SHA-256 one is not.
pub open spec fn strength_rank(algorithm: HashAlgorithm) -> int {
    match algorithm {
        HashAlgorithm::Sha256 => 0,
        HashAlgorithm::Sha1 => 1,
        HashAlgorithm::Md5 => 2,
        HashAlgorithm::Crc32 => 3,
    }
}

/// The rank a digest has in one of the two orders.
pub open spec fn rank_in(algorithm: HashAlgorithm, by_strength: bool) -> int {
    if by_strength {
        strength_rank(algorithm)
    } else {
        tag_rank(algorithm)
    }
}

/// The digests of one rank, in the order they came.
pub open spec fn of_rank(hashes: Seq<DigestView>, by_strength: bool, rank: int) -> Seq<DigestView>
    decreases hashes.len(),
{
    if hashes.len() == 0 {
        seq![]
    } else {
        let rest = of_rank(hashes.drop_last(), by_strength, rank);
        if rank_in(hashes.last().0, by_strength) == rank {
            rest.push(hashes.last())
        } else {
            rest
        }
    }
}

/// Digests put in order by rank, keeping the order they came in within a rank.
pub open spec fn arranged(hashes: Seq<DigestView>, by_strength: bool) -> Seq<DigestView> {
    of_rank(hashes, by_strength, 0) + of_rank(hashes, by_strength, 1) + of_rank(
        hashes,
        by_strength,
        2,
    ) + of_rank(hashes, by_strength, 3)
}

/// Digests ascending by tag, the order a hash array holds.
pub open spec fn by_tag(hashes: Seq<DigestView>) -> Seq<DigestView> {
    arranged(hashes, false)
}

/// Digests strongest first.
pub open spec fn strongest_first(hashes: Seq<DigestView>) -> Seq<DigestView> {
    arranged(hashes, true)
}

/// The digests a datafile's dump carries, in the order they are read off it.
pub open spec fn dump_hashes(rom: DatRomView) -> Seq<DigestView> {
    (match rom.crc {
        Some(crc) => seq![(HashAlgorithm::Crc32, be32_bytes(crc as int))],
        None => seq![],
    }) + (match rom.md5 {
        Some(d) => seq![(HashAlgorithm::Md5, d)],
        None => seq![],
    }) + (match rom.sha1 {
        Some(d) => seq![(HashAlgorithm::Sha1, d)],
        None => seq![],
    }) + (match rom.sha256 {
        Some(d) => seq![(HashAlgorithm::Sha256, d)],
        None => seq![],
    })
}

/// The entry a datafile's dump becomes, before its digests are put in order.
pub open spec fn dump_entry(game: Seq<char>, rom: DatRomView) -> EntryView {
    EntryView {
        name: game,
        rom_name: rom.name,
        size: Some(rom.size),
        hashes: dump_hashes(rom),
        serial: rom.serial,
    }
}

/// The entries one game's dumps become.
pub open spec fn game_entries(game: DatGameView) -> Seq<EntryView> {
    Seq::new(game.roms.len(), |i: int| dump_entry(game.name, game.roms[i]))
}

/// The entries a datafile's games become, one per dump, in the order the datafile lists them.
pub open spec fn datafile_entries(games: Seq<DatGameView>) -> Seq<EntryView>
    decreases games.len(),
{
    if games.len() == 0 {
        seq![]
    } else {
        datafile_entries(games.drop_last()) + game_entries(games.last())
    }
}

/// An entry with its digests in tag order.
pub open spec fn indexed(entry: EntryView) -> EntryView {
    EntryView { hashes: by_tag(entry.hashes), ..entry }
}

/// The catalog made of entries and a name: each entry's digests put in tag order.
pub open spec fn catalog_of_entries(name: Option<Seq<char>>, entries: Seq<EntryView>) -> CatalogView {
    CatalogView { name, entries: Seq::new(entries.len(), |i: int| indexed(entries[i])) }
}

/// The catalog a datafile makes.
pub open spec fn catalog_of(datafile: DatafileView) -> CatalogView {
    catalog_of_entries(datafile.name, datafile_entries(datafile.games))
}

/// The first entry carrying a digest, by position.
pub open spec fn first_carrying(entries: Seq<EntryView>, hash: DigestView) -> Option<int>
    decreases entries.len(),
{
    if entries.len() == 0 {
        None
    } else {
        match first_carrying(entries.drop_last(), hash) {
            Some(i) => Some(i),
            None => if entries.last().hashes.contains(hash) {
                Some(entries.len() - 1)
            } else {
                None
            },
        }
    }
}

/// The entry the first of some digests that any entry carries identifies.
pub open spec fn first_found(entries: Seq<EntryView>, hashes: Seq<DigestView>) -> Option<int>
    decreases hashes.len(),
{
    if hashes.len() == 0 {
        None
    } else {
        match first_carrying(entries, hashes[0]) {
            Some(i) => Some(i),
            None => first_found(entries, hashes.drop_first()),
        }
    }
}

/// The entry any of some digests identifies, preferring the strongest that matches.
pub open spec fn best_match(entries: Seq<EntryView>, hashes: Seq<DigestView>) -> Option<int> {
    first_found(entries, strongest_first(hashes))
}

/// Whether a run of digests has one of this algorithm.
pub open spec fn has_algorithm(hashes: Seq<DigestView>, algorithm: HashAlgorithm) -> bool {
    exists|k: int| 0 <= k < hashes.len() && #[trigger] hashes[k].0 == algorithm
}

/// Digests taken on from `extra`, one at a time, where no digest of that algorithm is already
/// held.
pub open spec fn absorbed(have: Seq<DigestView>, extra: Seq<DigestView>) -> Seq<DigestView>
    decreases extra.len(),
{
    if extra.len() == 0 {
        have
    } else {
        let before = absorbed(have, extra.drop_last());
        if has_algorithm(before, extra.last().0) {
            before
        } else {
            before.push(extra.last())
        }
    }
}

/// The number a digest's algorithm sorts by, in one of the two orders.
fn rank_of(algorithm: HashAlgorithm, by_strength: bool) -> (r: u8)
    ensures
        r as int == rank_in(algorithm, by_strength),
{
    match algorithm {
        HashAlgorithm::Sha256 => 0,
        HashAlgorithm::Sha1 => 1,
        HashAlgorithm::Crc32 => if by_strength {
            3
        } else {
            2
        },
        HashAlgorithm::Md5 => if by_strength {
            2
        } else {
            3
        },
    }
}

/// A copy of a digest.
fn copy_hash(hash: &RomHash) -> (r: RomHash)
    ensures
        r.algorithm == hash.algorithm,
        r.digest@ == hash.digest@,
{
    RomHash { algorithm: hash.algorithm, digest: copy_of(hash.digest.as_slice()) }
}

/// A copy of an optional text.
fn copy_text(text: &Option<String>) -> (r: Option<String>)
    ensures
        opt_text(r) == opt_text(*text),
{
    match text {
        Some(t) => Some(t.as_str().to_owned()),
        None => None,
    }
}

/// Appends copies of the digests of one rank.
fn push_of_rank(out: &mut Vec<RomHash>, hashes: &[RomHash], by_strength: bool, rank: u8)
    ensures
        digest_views(final(out)@) == digest_views(old(out)@) + of_rank(
            digest_views(hashes@),
            by_strength,
            rank as int,
        ),
{
    let ghost start = digest_views(out@);
    let mut i: usize = 0;
    while i < hashes.len()
        invariant
            i <= hashes@.len(),
            digest_views(out@) == start + of_rank(
                digest_views(hashes@.take(i as int)),
                by_strength,
                rank as int,
            ),
        decreases hashes@.len() - i,
    {
        proof {
            assert(digest_views(hashes@.take(i + 1)).drop_last() =~= digest_views(
                hashes@.take(i as int),
            ));
        }
        if rank_of(hashes[i].algorithm, by_strength) == rank {
            let ghost before = out@;
            out.push(copy_hash(&hashes[i]));
            assert(digest_views(out@) =~= digest_views(before).push(
                (hashes@[i as int].algorithm, hashes@[i as int].digest@),
            ));
        }
        i = i + 1;
    }
    assert(hashes@.take(hashes@.len() as int) =~= hashes@);
}

/// Copies of digests, put in order by rank and in the order they came within a rank.
fn arrange(hashes: &[RomHash], by_strength: bool) -> (r: Vec<RomHash>)
    ensures
        digest_views(r@) == arranged(digest_views(hashes@), by_strength),
{
    let mut out: Vec<RomHash> = Vec::new();
    assert(digest_views(out@) =~= seq![]);
    push_of_rank(&mut out, hashes, by_strength, 0);
    push_of_rank(&mut out, hashes, by_strength, 1);
    push_of_rank(&mut out, hashes, by_strength, 2);
    push_of_rank(&mut out, hashes, by_strength, 3);
    out
}

/// Whether an entry carries a digest.
fn carries(entry: &Entry, hash: &RomHash) -> (r: bool)
    ensures
        r == entry@.hashes.contains((hash.algorithm, hash.digest@)),
{
    let ghost wanted = (hash.algorithm, hash.digest@);
    let mut i: usize = 0;
    while i < entry.hashes.len()
        invariant
            i <= entry.hashes@.len(),
            entry@.hashes == digest_views(entry.hashes@),
            wanted == (hash.algorithm, hash.digest@),
            forall|k: int| 0 <= k < i ==> entry@.hashes[k] != wanted,
        decreases entry.hashes@.len() - i,
    {
        let held = &entry.hashes[i];
        assert(entry@.hashes[i as int] == (held.algorithm, held.digest@));
        if held.algorithm == hash.algorithm && same_bytes(held.digest.as_slice(), hash.digest.as_slice()) {
            assert(entry@.hashes[i as int] == wanted);
            return true;
        }
        i = i + 1;
    }
    assert forall|x: DigestView| entry@.hashes.contains(x) implies x != wanted by {
        let k = choose|k: int| 0 <= k < entry@.hashes.len() && entry@.hashes[k] == x;
        assert(entry@.hashes[k] != wanted);
    }
    false
}

/// Whether a run of digests has one of this algorithm.
fn holds_algorithm(hashes: &Vec<RomHash>, algorithm: HashAlgorithm) -> (r: bool)
    ensures
        r == has_algorithm(digest_views(hashes@), algorithm),
{
    let mut i: usize = 0;
    while i < hashes.len()
        invariant
            i <= hashes@.len(),
            forall|k: int| 0 <= k < i ==> hashes@[k].algorithm != algorithm,
        decreases hashes@.len() - i,
    {
        if hashes[i].algorithm == algorithm {
            assert(digest_views(hashes@)[i as int].0 == algorithm);
            return true;
        }
        i = i + 1;
    }
    false
}

/// The first entry carrying a digest does not change when entries are added after it.
proof fn lemma_first_carrying_step(entries: Seq<EntryView>, hash: DigestView, i: int)
    requires
        0 <= i < entries.len(),
        first_carrying(entries.take(i), hash) is None,
    ensures
        entries.take(i + 1).drop_last() == entries.take(i),
        entries[i].hashes.contains(hash) ==> first_carrying(entries.take(i + 1), hash) == Some(i),
        !entries[i].hashes.contains(hash) ==> first_carrying(entries.take(i + 1), hash) is None,
{
    assert(entries.take(i + 1).drop_last() =~= entries.take(i));
}

/// Nothing found among a beginning of the entries, and a digest carried at the very next one,
/// is the first that carries it in all of them.
proof fn lemma_first_carrying_prefix(entries: Seq<EntryView>, hash: DigestView, i: int)
    requires
        0 <= i <= entries.len(),
        first_carrying(entries.take(i), hash) is Some,
    ensures
        first_carrying(entries, hash) == first_carrying(entries.take(i), hash),
    decreases entries.len() - i,
{
    if i < entries.len() {
        assert(entries.take(i + 1).drop_last() =~= entries.take(i));
        lemma_first_carrying_prefix(entries, hash, i + 1);
    } else {
        assert(entries.take(i) =~= entries);
    }
}

/// Nothing found in any of the entries, the first that carries it is none.
proof fn lemma_first_carrying_none(entries: Seq<EntryView>, hash: DigestView)
    requires
        first_carrying(entries.take(entries.len() as int), hash) is None,
    ensures
        first_carrying(entries, hash) is None,
{
    assert(entries.take(entries.len() as int) =~= entries);
}

impl Catalog {
    /// The catalog's entries, as values.
    pub closed spec fn entry_list(&self) -> Seq<Entry> {
        self.entries@
    }

    /// Puts each entry's digests in tag order and makes a catalog of them.
    pub fn index(entries: Vec<Entry>, name: Option<String>) -> (catalog: Catalog)
        ensures
            catalog@ == catalog_of_entries(opt_text(name), entry_views(entries@)),
    {
        let mut out: Vec<Entry> = Vec::new();
        let mut i: usize = 0;
        while i < entries.len()
            invariant
                i <= entries@.len(),
                out@.len() == i,
                forall|k: int| 0 <= k < i ==> #[trigger] out@[k]@ == indexed(entries@[k]@),
            decreases entries@.len() - i,
        {
            let entry = &entries[i];
            let sorted = Entry {
                name: entry.name.as_str().to_owned(),
                rom_name: entry.rom_name.as_str().to_owned(),
                size: entry.size,
                hashes: arrange(entry.hashes.as_slice(), false),
                serial: copy_text(&entry.serial),
            };
            out.push(sorted);
            i = i + 1;
        }
        let catalog = Catalog { name, entries: out };
        assert(catalog@.entries =~= catalog_of_entries(opt_text(name), entry_views(entries@)).entries);
        catalog
    }

    /// Makes a catalog of what datary read: one entry per dump, with the game's name.
    pub fn from_datafile(datafile: &datary::Datafile) -> (catalog: Catalog)
        ensures
            catalog@ == catalog_of(datafile_view(*datafile)),
    {
        let games = game_count(datafile);
        let mut entries: Vec<Entry> = Vec::new();
        let mut g: usize = 0;
        while g < games
            invariant
                games == datafile_games(*datafile).len(),
                g <= games,
                entry_views(entries@) == datafile_entries(datafile_games(*datafile).take(g as int)),
            decreases games - g,
        {
            let ghost before = entry_views(entries@);
            let ghost game_view = datafile_games(*datafile)[g as int];
            let name = game_name(datafile, g);
            let roms = rom_count(datafile, g);
            let mut r: usize = 0;
            while r < roms
                invariant
                    games == datafile_games(*datafile).len(),
                    g < games,
                    game_view == datafile_games(*datafile)[g as int],
                    roms == game_view.roms.len(),
                    name@ == game_view.name,
                    r <= roms,
                    entry_views(entries@) == before + game_entries(game_view).take(r as int),
                decreases roms - r,
            {
                let rom = rom_at(datafile, g, r);
                let entry = Self::dump(name.as_str(), rom);
                let ghost was = entries@;
                entries.push(entry);
                assert(entry_views(entries@) =~= entry_views(was).push(entry@));
                assert(game_entries(game_view).take(r + 1) =~= game_entries(game_view).take(
                    r as int,
                ).push(dump_entry(game_view.name, game_view.roms[r as int])));
                r = r + 1;
            }
            assert(game_entries(game_view).take(roms as int) =~= game_entries(game_view));
            assert(datafile_games(*datafile).take(g + 1).drop_last() =~= datafile_games(
                *datafile,
            ).take(g as int));
            g = g + 1;
        }
        assert(datafile_games(*datafile).take(games as int) =~= datafile_games(*datafile));
        Self::index(entries, header_name(datafile))
    }

    /// The entry one dump becomes, its digests in the order they are read off it.
    fn dump(game: &str, rom: DatRom) -> (entry: Entry)
        ensures
            entry@ == dump_entry(game@, rom@),
    {
        let mut hashes: Vec<RomHash> = Vec::new();
        let ghost start = digest_views(hashes@);
        match rom.crc {
            Some(crc) => {
                let mut digest: Vec<u8> = Vec::new();
                push_be32(&mut digest, crc);
                hashes.push(RomHash { algorithm: HashAlgorithm::Crc32, digest });
            },
            None => {},
        }
        let ghost after_crc = hashes@;
        match rom.md5 {
            Some(digest) => hashes.push(RomHash { algorithm: HashAlgorithm::Md5, digest }),
            None => {},
        }
        let ghost after_md5 = hashes@;
        match rom.sha1 {
            Some(digest) => hashes.push(RomHash { algorithm: HashAlgorithm::Sha1, digest }),
            None => {},
        }
        let ghost after_sha1 = hashes@;
        match rom.sha256 {
            Some(digest) => hashes.push(RomHash { algorithm: HashAlgorithm::Sha256, digest }),
            None => {},
        }
        let entry = Entry {
            name: game.to_owned(),
            rom_name: rom.name,
            size: Some(rom.size),
            hashes,
            serial: rom.serial,
        };
        assert(entry@.hashes =~= dump_hashes(rom@));
        entry
    }

    /// Reads a catalog in either syntax, which datary tells apart by the text.
    pub fn parse(text: &str) -> (r: Result<Catalog, Error>)
        ensures
            match parsed_datafile(text@) {
                Ok(datafile) => r matches Ok(catalog) && catalog@ == catalog_of(datafile),
                Err(why) => r matches Err(Error::NotThisFormat { format, why: said }) && format@
                    == "DAT catalog"@ && said@ == why,
            },
    {
        match read_datafile(text) {
            Ok(datafile) => Ok(Self::from_datafile(&datafile)),
            Err(why) => Err(Error::NotThisFormat { format: "DAT catalog", why }),
        }
    }

    /// How many dumps the catalog lists.
    pub fn len(&self) -> (r: usize)
        ensures
            r == self@.entries.len(),
    {
        self.entries.len()
    }

    /// Whether the catalog lists nothing.
    pub fn is_empty(&self) -> (r: bool)
        ensures
            r == (self@.entries.len() == 0),
    {
        self.entries.len() == 0
    }

    /// Every entry, in the order the catalog listed them.
    pub fn entries(&self) -> (r: &[Entry])
        ensures
            entry_views(r@) == self@.entries,
    {
        self.entries.as_slice()
    }

    /// The entry a digest identifies: the first the catalog lists that carries it.
    pub fn lookup(&self, hash: &RomHash) -> (r: Option<&Entry>)
        ensures
            match first_carrying(self@.entries, (hash.algorithm, hash.digest@)) {
                Some(i) => r matches Some(entry) && entry@ == self@.entries[i],
                None => r is None,
            },
    {
        let ghost wanted = (hash.algorithm, hash.digest@);
        let ghost all = self@.entries;
        let mut i: usize = 0;
        while i < self.entries.len()
            invariant
                all == entry_views(self.entries@),
                wanted == (hash.algorithm, hash.digest@),
                i <= all.len(),
                first_carrying(all.take(i as int), wanted) is None,
            decreases all.len() - i,
        {
            proof {
                lemma_first_carrying_step(all, wanted, i as int);
            }
            if carries(&self.entries[i], hash) {
                proof {
                    lemma_first_carrying_prefix(all, wanted, i + 1);
                }
                return Some(&self.entries[i]);
            }
            i = i + 1;
        }
        proof {
            lemma_first_carrying_none(all, wanted);
        }
        None
    }

    /// The entry any of these digests identifies, preferring the strongest that matches: a
    /// CRC-32 collision is cheap to produce and a SHA-256 one is not.
    pub fn lookup_any(&self, hashes: &[RomHash]) -> (r: Option<&Entry>)
        ensures
            match best_match(self@.entries, digest_views(hashes@)) {
                Some(i) => r matches Some(entry) && entry@ == self@.entries[i],
                None => r is None,
            },
    {
        let candidates = arrange(hashes, true);
        let ghost order = digest_views(candidates@);
        let mut j: usize = 0;
        assert(order.skip(0) =~= order);
        while j < candidates.len()
            invariant
                order == digest_views(candidates@),
                order == strongest_first(digest_views(hashes@)),
                j <= order.len(),
                first_found(self@.entries, order) == first_found(self@.entries, order.skip(j as int)),
            decreases order.len() - j,
        {
            assert(order.skip(j as int)[0] == order[j as int]);
            assert(order.skip(j as int).drop_first() =~= order.skip(j + 1));
            match self.lookup(&candidates[j]) {
                Some(entry) => return Some(entry),
                None => {},
            }
            j = j + 1;
        }
        None
    }

    /// Fills in what the catalog knows on top of what a ROM's own header said, and says whether
    /// it knew the ROM.
    ///
    /// The catalog wins on the title, because a canonical set name is what a consumer can group
    /// by. It does **not** overwrite a serial read out of the header: that came from the ROM
    /// itself. Any digest the catalog has of an algorithm the game lacks is taken, and the
    /// digests are left ascending by tag.
    pub fn enrich(&self, game: &mut Game) -> (found: bool)
        ensures
            match best_match(self@.entries, digest_views(old(game).rom_hashes@)) {
                None => !found && *final(game) == *old(game),
                Some(i) => {
                    &&& found
                    &&& opt_text(final(game).title) == Some(self@.entries[i].name)
                    &&& opt_text(final(game).serial) == (match old(game).serial {
                        Some(serial) => Some(serial@),
                        None => self@.entries[i].serial,
                    })
                    &&& digest_views(final(game).rom_hashes@) == by_tag(
                        absorbed(digest_views(old(game).rom_hashes@), self@.entries[i].hashes),
                    )
                    &&& final(game).rom_filename == old(game).rom_filename
                    &&& final(game).system == old(game).system
                },
            },
    {
        let entry = match self.lookup_any(game.rom_hashes.as_slice()) {
            Some(entry) => entry,
            None => return false,
        };
        game.title = Some(entry.name.as_str().to_owned());
        if game.serial.is_none() {
            game.serial = copy_text(&entry.serial);
        }
        let ghost have = digest_views(game.rom_hashes@);
        let ghost extra = digest_views(entry.hashes@);
        let mut hashes = copy_hashes(&game.rom_hashes);
        let mut k: usize = 0;
        while k < entry.hashes.len()
            invariant
                extra == digest_views(entry.hashes@),
                k <= extra.len(),
                digest_views(hashes@) == absorbed(have, extra.take(k as int)),
            decreases extra.len() - k,
        {
            assert(extra.take(k + 1).drop_last() =~= extra.take(k as int));
            if !holds_algorithm(&hashes, entry.hashes[k].algorithm) {
                let ghost before = hashes@;
                hashes.push(copy_hash(&entry.hashes[k]));
                assert(digest_views(hashes@) =~= digest_views(before).push(extra[k as int]));
            }
            k = k + 1;
        }
        assert(extra.take(extra.len() as int) =~= extra);
        game.rom_hashes = arrange(hashes.as_slice(), false);
        true
    }
}

/// Copies of a run of digests.
fn copy_hashes(hashes: &Vec<RomHash>) -> (r: Vec<RomHash>)
    ensures
        digest_views(r@) == digest_views(hashes@),
{
    let mut out: Vec<RomHash> = Vec::new();
    let mut i: usize = 0;
    while i < hashes.len()
        invariant
            i <= hashes@.len(),
            digest_views(out@) == digest_views(hashes@.take(i as int)),
        decreases hashes@.len() - i,
    {
        let ghost before = out@;
        out.push(copy_hash(&hashes[i]));
        assert(digest_views(out@) =~= digest_views(before).push(digest_views(hashes@)[i as int]));
        assert(digest_views(hashes@.take(i + 1)) =~= digest_views(hashes@.take(i as int)).push(
            digest_views(hashes@)[i as int],
        ));
        i = i + 1;
    }
    assert(hashes@.take(hashes@.len() as int) =~= hashes@);
    out
}

} // verus!
