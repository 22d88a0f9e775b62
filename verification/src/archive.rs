//! Reading a card, or the loose saves off one, out of a zip archive.
//!
//! Saves are shared as archives. Sometimes that is an archive of a card, and taking it out is all
//! there is to do. More often it is the saves themselves, one file each. Both come back as a card,
//! so nothing downstream has to know an archive was involved; a card assembled out of loose saves
//! never existed until now, and is marked so.
//!
//! Reading only. An archive is a way a save arrived, not a format this library writes back.

use std::io::Read;
use vstd::prelude::*;
use crate::detect::{card_format_of, detect, format_by_extension, format_by_signature, Format};
use crate::error::Error;
use crate::text::{decimal_text, push_decimal, push_str, str_eq};

verus! {

/// The error the `zip` crate reports.
#[verifier::external_type_specification]
#[verifier::external_body]
pub struct ExZipError(zip::result::ZipError);

/// How many members are looked at. An archive of saves holds tens, not thousands.
pub const MAX_MEMBERS: usize = 512;

/// The most any one member is read to. A PS2 card is 8 MiB, which is the largest thing expected in
/// here by a wide margin; the cap keeps a small archive claiming an enormous member from being
/// decompressed on trust.
pub const MAX_MEMBER: u64 = 32 * 1024 * 1024;

/// The most the members may come to together.
pub const MAX_TOTAL: u64 = 64 * 1024 * 1024;

/// Whether bytes open with what a zip opens with, `PK` 3 4. Two more magics exist for the empty
/// and spanned cases, and neither is an archive with a card in it.
pub open spec fn zip_magic(bytes: Seq<u8>) -> bool {
    bytes.len() >= 4 && bytes[0] == 0x50 && bytes[1] == 0x4B && bytes[2] == 0x03 && bytes[3] == 0x04
}

/// Whether these bytes are an archive this can open.
pub fn is_archive(bytes: &[u8]) -> (r: bool)
    ensures
        r == zip_magic(bytes@),
{
    bytes.len() >= 4 && bytes[0] == 0x50 && bytes[1] == 0x4B && bytes[2] == 0x03 && bytes[3] == 0x04
}

/// How many members `zip::ZipArchive` finds in an archive, or nothing when it cannot open it.
pub uninterp spec fn zip_member_count(archive: Seq<u8>) -> Option<usize>;

/// A member's name and whether it is a directory, as `zip::ZipArchive::by_index` reads them, or
/// nothing when it cannot.
pub uninterp spec fn zip_member_entry(archive: Seq<u8>, index: int) -> Option<(Seq<char>, bool)>;

/// A member's bytes, decompressed up to a limit, or nothing when reading fails.
pub uninterp spec fn zip_member_data(archive: Seq<u8>, index: int, limit: u64) -> Option<Seq<u8>>;

/// `zip::ZipArchive::new` over the bytes, then `len`.
#[verifier::external_body]
fn member_count(archive: &[u8]) -> (r: Result<usize, zip::result::ZipError>)
    ensures
        r is Ok <==> zip_member_count(archive@) is Some,
        r matches Ok(n) ==> zip_member_count(archive@) == Some(n),
{
    match zip::ZipArchive::new(std::io::Cursor::new(archive)) {
        Ok(zip) => Ok(zip.len()),
        Err(e) => Err(e),
    }
}

/// `zip::ZipArchive::by_index`, then the member's `name` and `is_dir`.
#[verifier::external_body]
fn member_entry(archive: &[u8], index: usize) -> (r: Result<(String, bool), zip::result::ZipError>)
    ensures
        r is Ok <==> zip_member_entry(archive@, index as int) is Some,
        r matches Ok(t) ==> zip_member_entry(archive@, index as int) == Some((t.0@, t.1)),
{
    let mut zip = zip::ZipArchive::new(std::io::Cursor::new(archive))?;
    let file = zip.by_index(index)?;
    let name = file.name()?.into_owned();
    Ok((name, file.is_dir()))
}

/// `zip::ZipArchive::by_index`, then `Read::take` and `read_to_end` on the member: its bytes, of
/// which `take` lets through at most the limit.
#[verifier::external_body]
fn member_data(archive: &[u8], index: usize, limit: u64) -> (r: Result<Vec<u8>, zip::result::ZipError>)
    ensures
        r is Ok <==> zip_member_data(archive@, index as int, limit) is Some,
        r matches Ok(d) ==> zip_member_data(archive@, index as int, limit) == Some(d@) && d@.len() <= limit,
{
    let mut zip = zip::ZipArchive::new(std::io::Cursor::new(archive))?;
    let mut file = zip.by_index(index)?;
    let mut buffer = Vec::new();
    match file.by_ref().take(limit).read_to_end(&mut buffer) {
        Ok(_) => Ok(buffer),
        Err(e) => Err(zip::result::ZipError::Io(e)),
    }
}

/// What the `zip` crate says an error was, as text.
#[verifier::external_body]
fn zip_error_text(e: &zip::result::ZipError) -> String {
    e.to_string()
}

/// One file out of an archive, as values.
pub struct MemberView {
    pub name: Seq<char>,
    pub bytes: Seq<u8>,
}

/// One file out of the archive.
#[derive(Debug, Clone)]
pub struct Member {
    pub name: String,
    pub bytes: Vec<u8>,
}

impl View for Member {
    type V = MemberView;

    open spec fn view(&self) -> MemberView {
        MemberView { name: self.name@, bytes: self.bytes@ }
    }
}

/// The values of a run of members.
pub open spec fn member_views(s: Seq<Member>) -> Seq<MemberView> {
    Seq::new(s.len(), |i: int| s[i]@)
}

/// Where the last `c` of a text's first `k` characters is, or -1.
pub open spec fn last_of(s: Seq<char>, c: char, k: int) -> int
    decreases k,
{
    if k <= 0 {
        -1
    } else if s[k - 1] == c {
        k - 1
    } else {
        last_of(s, c, k - 1)
    }
}

/// The part of a name after its last dot, or nothing when it has none.
pub open spec fn name_extension(name: Seq<char>) -> Seq<char> {
    let k = last_of(name, '.', name.len() as int);
    if k < 0 {
        Seq::empty()
    } else {
        name.skip(k + 1)
    }
}

/// Where the last `c` of a text's first `n` characters is, if it has one.
fn find_last(s: &str, c: char, n: usize) -> (r: Option<usize>)
    requires
        n == s@.len(),
    ensures
        r is None <==> last_of(s@, c, n as int) < 0,
        r matches Some(k) ==> k == last_of(s@, c, n as int),
{
    let mut k: usize = n;
    while k > 0
        invariant
            k <= n,
            n == s@.len(),
            last_of(s@, c, n as int) == last_of(s@, c, k as int),
        decreases k,
    {
        if s.get_char(k - 1) == c {
            return Some(k - 1);
        }
        k = k - 1;
    }
    None
}

/// `last_of` is -1 or an index below `k`.
proof fn lemma_last_of_range(s: Seq<char>, c: char, k: int)
    ensures
        -1 <= last_of(s, c, k),
        last_of(s, c, k) < k || (k <= 0 && last_of(s, c, k) == -1),
    decreases k,
{
    if k > 0 {
        lemma_last_of_range(s, c, k - 1);
    }
}

impl Member {
    /// The part of the name after the last dot, which is what detection wants.
    pub fn extension(&self) -> (r: &str)
        ensures
            r@ == name_extension(self.name@),
    {
        let name = self.name.as_str();
        let n = name.unicode_len();
        proof {
            lemma_last_of_range(name@, '.', n as int);
        }
        match find_last(name, '.', n) {
            None => {
                proof {
                    reveal_strlit("");
                }
                ""
            },
            Some(k) => name.substring_char(k + 1, n),
        }
    }
}

/// Whether a name has a `..` component: a name that climbs out of the archive.
pub open spec fn climbs_out(name: Seq<char>) -> bool {
    exists|i: int|
        0 <= i && i + 2 <= name.len() && #[trigger] name[i] == '.' && name[i + 1] == '.' && (i == 0 || name[i
            - 1] == '/') && (i + 2 == name.len() || name[i + 2] == '/')
}

/// Whether a member is junk an archiver left behind or a path built to be extracted carelessly:
/// a `..` component, anything under `__MACOSX/`, or a file whose own name starts with a dot.
pub open spec fn passed_over(name: Seq<char>) -> bool {
    let bare = name.skip(last_of(name, '/', name.len() as int) + 1);
    ||| climbs_out(name)
    ||| (name.len() >= 9 && name.take(9) == "__MACOSX/"@)
    ||| (bare.len() > 0 && bare[0] == '.')
}

/// Whether a name has a `..` component.
fn has_parent_component(name: &str, n: usize) -> (r: bool)
    requires
        n == name@.len(),
    ensures
        r == climbs_out(name@),
{
    let mut i: usize = 0;
    while n >= 2 && i <= n - 2
        invariant
            i <= n,
            n == name@.len(),
            forall|j: int|
                0 <= j < i && j + 2 <= name@.len() ==> !(#[trigger] name@[j] == '.' && name@[j + 1] == '.' && (j
                    == 0 || name@[j - 1] == '/') && (j + 2 == name@.len() || name@[j + 2] == '/')),
        decreases n - i,
    {
        if name.get_char(i) == '.' && name.get_char(i + 1) == '.' && (i == 0 || name.get_char(i - 1) == '/')
            && (i + 2 == n || name.get_char(i + 2) == '/') {
            return true;
        }
        i = i + 1;
    }
    false
}

/// Whether a member is passed over.
fn is_passed_over(name: &str) -> (r: bool)
    ensures
        r == passed_over(name@),
{
    let n = name.unicode_len();
    if has_parent_component(name, n) {
        return true;
    }
    if n >= 9 && str_eq(name.substring_char(0, 9), "__MACOSX/") {
        return true;
    }
    proof {
        lemma_last_of_range(name@, '/', n as int);
    }
    let start = match find_last(name, '/', n) {
        None => 0,
        Some(k) => k + 1,
    };
    start < n && name.get_char(start) == '.'
}

/// The members worth looking at, from member `i` of the first `n` on, with `total` bytes already
/// read: directories and passed-over names skipped, each member read to the lesser of its own cap
/// and what is left of the total, and reading stopping once the total is reached. Nothing when the
/// archive fails to give up a member it lists.
pub open spec fn members_from(archive: Seq<u8>, i: int, n: int, total: int) -> Option<Seq<MemberView>>
    decreases n - i,
{
    if i >= n {
        Some(Seq::empty())
    } else {
        match zip_member_entry(archive, i) {
            None => None,
            Some((name, is_dir)) => if is_dir || passed_over(name) {
                members_from(archive, i + 1, n, total)
            } else {
                let limit = if MAX_MEMBER < MAX_TOTAL - total { MAX_MEMBER as int } else { MAX_TOTAL - total };
                match zip_member_data(archive, i, limit as u64) {
                    None => None,
                    Some(data) => {
                        let m = MemberView { name, bytes: data };
                        let t = total + data.len();
                        if t >= MAX_TOTAL {
                            Some(seq![m])
                        } else {
                            match members_from(archive, i + 1, n, t) {
                                Some(rest) => Some(seq![m] + rest),
                                None => None,
                            }
                        }
                    },
                }
            },
        }
    }
}

/// Everything in an archive worth looking at, or nothing when it cannot be read.
pub open spec fn archive_members(archive: Seq<u8>) -> Option<Seq<MemberView>> {
    match zip_member_count(archive) {
        None => None,
        Some(count) => members_from(
            archive,
            0,
            if count < MAX_MEMBERS { count as int } else { MAX_MEMBERS as int },
            0,
        ),
    }
}

/// An error that says what went wrong with the archive.
fn archive_error(prefix: &str, e: &zip::result::ZipError) -> (r: Error)
    ensures
        r is Archive,
{
    let mut text = prefix.to_owned();
    let detail = zip_error_text(e);
    push_str(&mut text, detail.as_str());
    Error::Archive(text)
}

/// Everything in the archive worth looking at.
pub fn members(bytes: &[u8]) -> (r: Result<Vec<Member>, Error>)
    ensures
        r matches Ok(ms) ==> archive_members(bytes@) == Some(member_views(ms@)),
        r is Err ==> archive_members(bytes@) is None && r->Err_0 is Archive,
{
    let count = match member_count(bytes) {
        Ok(count) => count,
        Err(e) => {
            return Err(archive_error("could not be opened: ", &e));
        },
    };
    let n = if count < MAX_MEMBERS {
        count
    } else {
        MAX_MEMBERS
    };
    let mut out: Vec<Member> = Vec::new();
    let mut total: u64 = 0;
    let mut index: usize = 0;
    while index < n
        invariant
            index <= n,
            n <= MAX_MEMBERS,
            total < MAX_TOTAL,
            zip_member_count(bytes@) == Some(count),
            n == (if count < MAX_MEMBERS { count as int } else { MAX_MEMBERS as int }),
            archive_members(bytes@) == match members_from(bytes@, index as int, n as int, total as int) {
                Some(rest) => Some(member_views(out@) + rest),
                None => None,
            },
        decreases n - index,
    {
        let (name, is_dir) = match member_entry(bytes, index) {
            Ok(entry) => entry,
            Err(e) => {
                return Err(archive_error("is broken: ", &e));
            },
        };
        if is_dir || is_passed_over(name.as_str()) {
            index = index + 1;
            continue;
        }
        let limit = if MAX_MEMBER < MAX_TOTAL - total {
            MAX_MEMBER
        } else {
            MAX_TOTAL - total
        };
        let data = match member_data(bytes, index, limit) {
            Ok(data) => data,
            Err(e) => {
                return Err(archive_error("could not be read: ", &e));
            },
        };
        let ghost m = MemberView { name: name@, bytes: data@ };
        let ghost before = member_views(out@);
        total = total + data.len() as u64;
        out.push(Member { name, bytes: data });
        proof {
            assert(member_views(out@) =~= before.push(m));
        }
        if total >= MAX_TOTAL {
            proof {
                assert(before + seq![m] =~= before.push(m));
            }
            return Ok(out);
        }
        proof {
            assert forall|rest: Seq<MemberView>| before + (seq![m] + rest) =~= before.push(m) + rest by {}
        }
        index = index + 1;
    }
    proof {
        assert(member_views(out@) + Seq::<MemberView>::empty() =~= member_views(out@));
    }
    Ok(out)
}

/// A card taken out of an archive, ready to be read as if the archive were not there.
#[derive(Debug, Clone)]
pub struct Unpacked {
    /// The card image.
    pub bytes: Vec<u8>,
    /// The extension to detect against, which for an assembled card is the format's own.
    pub extension: String,
    /// What inside the archive this came from, for a message that has to say.
    pub source: String,
    /// Whether the card was built here out of loose saves rather than found whole.
    pub assembled: bool,
}

/// The format `detect` settles on for bytes under an extension, if any.
pub open spec fn detected(bytes: Seq<u8>, extension: Seq<char>) -> Option<Format> {
    match format_by_signature(bytes) {
        Some(f) => Some(f),
        None => format_by_extension(extension),
    }
}

/// Whether a member is a whole card. Only a card counts: detection falls back to the extension,
/// and its catch-all is a flat save, so a readme would otherwise look like a candidate.
pub open spec fn is_card(m: MemberView) -> bool {
    match detected(m.bytes, name_extension(m.name)) {
        Some(f) => card_format_of(f) is Some,
        None => false,
    }
}

/// The members that are cards, in archive order.
pub open spec fn cards_in(ms: Seq<MemberView>) -> Seq<MemberView>
    decreases ms.len(),
{
    if ms.len() == 0 {
        Seq::empty()
    } else if is_card(ms.last()) {
        cards_in(ms.drop_last()).push(ms.last())
    } else {
        cards_in(ms.drop_last())
    }
}

/// There are no more cards than members.
proof fn lemma_cards_in_len(ms: Seq<MemberView>)
    ensures
        cards_in(ms).len() <= ms.len(),
    decreases ms.len(),
{
    if ms.len() > 0 {
        lemma_cards_in_len(ms.drop_last());
    }
}

/// The names of a run of members.
pub open spec fn names_of(ms: Seq<MemberView>) -> Seq<Seq<char>> {
    Seq::new(ms.len(), |i: int| ms[i].name)
}

/// Names joined with a comma and a space between each two.
pub open spec fn joined(names: Seq<Seq<char>>) -> Seq<char>
    decreases names.len(),
{
    if names.len() == 0 {
        Seq::empty()
    } else if names.len() == 1 {
        names[0]
    } else {
        joined(names.drop_last()) + ", "@ + names.last()
    }
}

/// The first eight member names, and `...` after them when there were more: what an error that
/// has to say what was in an archive lists.
pub open spec fn listing_text(ms: Seq<MemberView>) -> Seq<char> {
    let shown = names_of(ms.take(if ms.len() < 8 { ms.len() as int } else { 8 }));
    if ms.len() > 8 {
        joined(shown.push("..."@))
    } else {
        joined(shown)
    }
}

/// Appends one more name to a joined list of `k` names.
fn push_joined(text: &mut String, name: &str, k: usize, names: Ghost<Seq<Seq<char>>>)
    requires
        old(text)@ == joined(names@),
        names@.len() == k,
    ensures
        final(text)@ == joined(names@.push(name@)),
{
    proof {
        assert(names@.push(name@).drop_last() =~= names@);
    }
    if k > 0 {
        push_str(text, ", ");
    }
    push_str(text, name);
    proof {
        if k == 0 {
            assert(text@ =~= name@);
        }
    }
}

/// The member names, for an error that has to say what was in there.
fn listing(members: &Vec<Member>) -> (r: String)
    ensures
        r@ == listing_text(member_views(members@)),
{
    let ghost ms = member_views(members@);
    let shown_len: usize = if members.len() < 8 {
        members.len()
    } else {
        8
    };
    let ghost shown = names_of(ms.take(shown_len as int));
    let mut text = String::new();
    let mut i: usize = 0;
    while i < shown_len
        invariant
            i <= shown_len,
            shown_len <= members.len(),
            ms == member_views(members@),
            shown == names_of(ms.take(shown_len as int)),
            text@ == joined(shown.take(i as int)),
        decreases shown_len - i,
    {
        push_joined(&mut text, members[i].name.as_str(), i, Ghost(shown.take(i as int)));
        proof {
            assert(shown.take(i as int).push(members@[i as int].name@) =~= shown.take(i + 1));
        }
        i = i + 1;
    }
    proof {
        assert(shown.take(shown_len as int) =~= shown);
    }
    if members.len() > 8 {
        push_joined(&mut text, "...", 8, Ghost(shown));
    }
    text
}

/// Builds a card out of the loose saves an archive held. No format whose single saves this
/// library reads is built in, so an archive of them cannot be assembled: it is refused with a
/// listing of what it held.
fn assemble(members: &Vec<Member>) -> (r: Result<Unpacked, Error>)
    ensures
        r matches Err(Error::Archive(t)) && t@ == "holds no card: "@ + listing_text(member_views(members@)),
{
    let mut text = "holds no card: ".to_owned();
    let names = listing(members);
    push_str(&mut text, names.as_str());
    Err(Error::Archive(text))
}

/// Reads a card out of an archive.
///
/// The archive holding one card image is the simple case. Holding several cards, or nothing that
/// reads, it is an error that says which: guessing between two cards is not this function's
/// decision to make.
pub fn unpack(bytes: &[u8]) -> (r: Result<Unpacked, Error>)
    ensures
        match archive_members(bytes@) {
            None => r matches Err(Error::Archive(_)),
            Some(ms) => {
                let cards = cards_in(ms);
                if ms.len() == 0 {
                    r matches Err(Error::Archive(t)) && t@ == "holds nothing"@
                } else if cards.len() > 1 {
                    r matches Err(Error::Archive(t)) && t@ == "holds "@ + decimal_text(cards.len())
                        + " cards: "@ + joined(names_of(cards))
                } else if cards.len() == 1 {
                    r matches Ok(u) && u.bytes@ == cards[0].bytes && u.extension@ == name_extension(
                        cards[0].name,
                    ) && u.source@ == cards[0].name && !u.assembled
                } else {
                    r matches Err(Error::Archive(t)) && t@ == "holds no card: "@ + listing_text(ms)
                }
            },
        },
{
    let mut members = match members(bytes) {
        Ok(members) => members,
        Err(e) => {
            return Err(e);
        },
    };
    let ghost ms = member_views(members@);
    if members.len() == 0 {
        return Err(Error::Archive("holds nothing".to_owned()));
    }
    let mut count: usize = 0;
    let mut first: usize = 0;
    let mut names = String::new();
    let mut i: usize = 0;
    while i < members.len()
        invariant
            i <= members.len(),
            ms == member_views(members@),
            count == cards_in(ms.take(i as int)).len(),
            count > 0 ==> first < i && ms[first as int] == cards_in(ms.take(i as int))[0],
            names@ == joined(names_of(cards_in(ms.take(i as int)))),
        decreases members.len() - i,
    {
        let ghost before = cards_in(ms.take(i as int));
        proof {
            assert(ms.take(i + 1).drop_last() =~= ms.take(i as int));
            lemma_cards_in_len(ms.take(i as int));
        }
        let member = &members[i];
        let card = match detect(member.bytes.as_slice(), member.extension()) {
            Ok(format) => format.card_format().is_some(),
            Err(_) => false,
        };
        if card {
            push_joined(&mut names, member.name.as_str(), count, Ghost(names_of(before)));
            proof {
                assert(names_of(before).push(ms[i as int].name) =~= names_of(before.push(ms[i as int])));
            }
            if count == 0 {
                first = i;
            }
            count = count + 1;
        }
        i = i + 1;
    }
    proof {
        assert(ms.take(members.len() as int) =~= ms);
    }
    if count > 1 {
        let mut text = "holds ".to_owned();
        push_decimal(&mut text, count as u64);
        push_str(&mut text, " cards: ");
        push_str(&mut text, names.as_str());
        return Err(Error::Archive(text));
    }
    if count == 1 {
        let card = members.remove(first);
        let extension = card.extension().to_owned();
        return Ok(Unpacked { bytes: card.bytes, extension, source: card.name, assembled: false });
    }
    assemble(&members)
}

} // verus!
