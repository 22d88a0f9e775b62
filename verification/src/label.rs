//! What a console calls a save: the text of a title field, read only where it can be read.
//!
//! A field that would be guessed at gives nothing. The latitude is normalization: transcoding out
//! of the encoding a console stored, and trimming the padding a fixed-width field pads with.
//! Anything further would be writing a line the save does not say.

use vstd::prelude::*;
use vstd::utf8::encode_utf8;
use crate::text::{ascii_string, ascii_text, trim, trim_chars, until_nul, until_nul_spec};

verus! {

/// A line if it holds anything, nothing otherwise.
pub open spec fn non_empty(line: Seq<char>) -> Option<Seq<char>> {
    if line.len() == 0 {
        None
    } else {
        Some(line)
    }
}

/// Whether a byte is printable ASCII, space included.
pub open spec fn printable(b: u8) -> bool {
    0x20 <= b < 0x7f
}

/// The text a plain fixed-width field holds: up to its first NUL, trimmed, when every byte of it
/// is printable ASCII; nothing when a byte is not, or when nothing is left.
pub open spec fn ascii_label(bytes: Seq<u8>) -> Option<Seq<char>> {
    let text = until_nul_spec(bytes);
    if !(forall|i: int| 0 <= i < text.len() ==> printable(#[trigger] text[i])) {
        None
    } else {
        non_empty(trim_chars(ascii_text(text)))
    }
}

/// The views of an optional string.
pub open spec fn opt_chars(o: Option<String>) -> Option<Seq<char>> {
    match o {
        Some(s) => Some(s@),
        None => None,
    }
}

/// Whether a string holds anything.
fn is_empty(s: &String) -> (r: bool)
    ensures
        r == (s@.len() == 0),
{
    s.as_str().unicode_len() == 0
}

/// Reads a fixed-width field of plain text, trimming the padding it is padded with.
///
/// Returns `None` where the field holds a byte this cannot transcode. A console that stored a
/// title in an encoding nothing here decodes has a title, and omitting it says so honestly, where
/// writing the ASCII that happened to survive would say something the save does not.
pub fn ascii_field(bytes: &[u8]) -> (r: Option<String>)
    ensures
        opt_chars(r) == ascii_label(bytes@),
{
    let text = until_nul(bytes);
    let mut i: usize = 0;
    while i < text.len()
        invariant
            i <= text@.len(),
            text@ == until_nul_spec(bytes@),
            forall|k: int| 0 <= k < i ==> printable(#[trigger] text@[k]),
        decreases text@.len() - i,
    {
        if text[i] < 0x20 || text[i] >= 0x7f {
            assert(!printable(text@[i as int]));
            return None;
        }
        i = i + 1;
    }
    let s = ascii_string(text);
    let trimmed = trim(s.as_str());
    if is_empty(&trimmed) {
        None
    } else {
        Some(trimmed)
    }
}

/// What `encoding_rs::SHIFT_JIS.decode` makes of a run of bytes: the text, and whether a
/// malformed sequence had to be replaced.
pub uninterp spec fn shift_jis_decoding(bytes: Seq<u8>) -> (Seq<char>, bool);

/// `encoding_rs::Encoding::decode` on Shift_JIS: the decoded text, and whether it had malformed
/// sequences. What the text is (the decoder also sniffs a byte order mark) is left to the name.
#[verifier::external_body]
fn decode_shift_jis(bytes: &[u8]) -> (r: (String, bool))
    ensures
        (r.0@, r.1) == shift_jis_decoding(bytes@),
{
    let (decoded, _, malformed) = encoding_rs::SHIFT_JIS.decode(bytes);
    (decoded.into_owned(), malformed)
}

/// The label a decoded title gives: nothing when the decoder had to replace something, since
/// replacement characters would be a title the save does not say; otherwise the text trimmed, if
/// anything is left.
pub open spec fn decoded_label(decoded: Seq<char>, malformed: bool) -> Option<Seq<char>> {
    if malformed {
        None
    } else {
        non_empty(trim_chars(decoded))
    }
}

/// The label a decoded title gives.
pub fn label_of_decoded(decoded: &str, malformed: bool) -> (r: Option<String>)
    ensures
        opt_chars(r) == decoded_label(decoded@, malformed),
{
    if malformed {
        return None;
    }
    let trimmed = trim(decoded);
    if is_empty(&trimmed) {
        None
    } else {
        Some(trimmed)
    }
}

/// The label a Shift_JIS field gives: its text up to the first NUL, decoded.
pub open spec fn shift_jis_label(bytes: Seq<u8>) -> Option<Seq<char>> {
    let (decoded, malformed) = shift_jis_decoding(until_nul_spec(bytes));
    decoded_label(decoded, malformed)
}

/// Reads a title a console stored in Shift-JIS.
///
/// Full width stays full width: the format asks for NFC, which does not fold `Ｔ` to `T`, and
/// folding it would be normalization nothing grants. A field this cannot read returns `None`
/// rather than a partial reading.
pub fn shift_jis_field(bytes: &[u8]) -> (r: Option<String>)
    ensures
        opt_chars(r) == shift_jis_label(bytes@),
{
    let text = until_nul(bytes);
    let (decoded, malformed) = decode_shift_jis(text);
    label_of_decoded(decoded.as_str(), malformed)
}

/// What a save is called: the line a console lists it under, and the one it shows beneath, where
/// there is one.
#[derive(Debug, Clone, PartialEq, Eq)]
pub struct Label {
    /// The title.
    pub title: String,
    /// The line beneath it.
    pub detail: Option<String>,
}

/// Whether a line is one a label admits: not empty, and no longer than 256 bytes of UTF-8.
pub open spec fn fits_line(line: Seq<char>) -> bool {
    1 <= encode_utf8(line).len() <= 256
}

/// Whether a line is one a label admits.
pub fn fits(line: &str) -> (r: bool)
    ensures
        r == fits_line(line@),
{
    let n = line.as_bytes().len();
    1 <= n && n <= 256
}

/// A line kept where a label admits it.
pub open spec fn admitted(line: Option<Seq<char>>) -> Option<Seq<char>> {
    match line {
        Some(text) => if fits_line(text) {
            Some(text)
        } else {
            None
        },
        None => None,
    }
}

/// The label a title and a detail line make: none without a title a label admits, and the
/// detail only where it is admitted too.
pub fn value(title: Option<String>, detail: Option<String>) -> (r: Option<Label>)
    ensures
        match admitted(opt_chars(title)) {
            Some(t) => r matches Some(label) && label.title@ == t && opt_chars(label.detail)
                == admitted(opt_chars(detail)),
            None => r is None,
        },
{
    let title = match title {
        Some(t) => t,
        None => return None,
    };
    if !fits(title.as_str()) {
        return None;
    }
    let detail = match detail {
        Some(d) => if fits(d.as_str()) {
            Some(d)
        } else {
            None
        },
        None => None,
    };
    Some(Label { title, detail })
}

} // verus!
