//! The N64 font's code table, which is what a note name is written in.
//!
//! It is not ASCII and not a subset of it: the digits start at 16 and the letters at 26, so
//! reading a note name as bytes yields nonsense. Every character the table lists is ASCII, which
//! is what lets a name be decoded a byte at a time.

use vstd::prelude::*;
use crate::text::{ascii_string, ascii_text, all_ascii, is_white_space};

verus! {

/// The table itself: the character each code stands for, by index.
pub const CHARSET: &'static str = "\0\0\0\0\0\0\0\0\0\0\0\0\0\0\0 0123456789ABCDEFGHIJKLMNOPQRSTUVWXYZ!\"#`*+,-./:=?@";

/// The ASCII byte of the punctuation the table lists from code 52 on, in table order.
pub open spec fn punctuation(i: int) -> u8 {
    if i == 0 {
        0x21
    } else if i == 1 {
        0x22
    } else if i == 2 {
        0x23
    } else if i == 3 {
        0x60
    } else if i == 4 {
        0x2A
    } else if i == 5 {
        0x2B
    } else if i == 6 {
        0x2C
    } else if i == 7 {
        0x2D
    } else if i == 8 {
        0x2E
    } else if i == 9 {
        0x2F
    } else if i == 10 {
        0x3A
    } else if i == 11 {
        0x3D
    } else if i == 12 {
        0x3F
    } else {
        0x40
    }
}

/// The ASCII byte of the character a code stands for, or NUL for a code the table does not list.
pub open spec fn font_byte(code: u8) -> u8 {
    if code == 15 {
        0x20
    } else if 16 <= code <= 25 {
        (code - 16 + 0x30) as u8
    } else if 26 <= code <= 51 {
        (code - 26 + 0x41) as u8
    } else if 52 <= code <= 65 {
        punctuation(code - 52)
    } else {
        0
    }
}

/// The character a code stands for, or NUL for a code the table does not list.
pub open spec fn font_char(code: u8) -> char {
    font_byte(code) as char
}

/// A character with an ASCII lower-case letter made upper-case, as `char::to_ascii_uppercase`.
pub open spec fn ascii_upper(c: char) -> char {
    if 'a' <= c <= 'z' {
        ((c as u32) - 32) as char
    } else {
        c
    }
}

/// The first code of the table that stands for a character, or the code for a space when the
/// table does not carry it.
pub open spec fn font_code(c: char) -> u8 {
    let u = ascii_upper(c);
    if u == '\0' {
        0
    } else if '0' <= u <= '9' {
        ((u as u32) - 0x30 + 16) as u8
    } else if 'A' <= u <= 'Z' {
        ((u as u32) - 0x41 + 26) as u8
    } else if u == '!' {
        52
    } else if u == '"' {
        53
    } else if u == '#' {
        54
    } else if u == '`' {
        55
    } else if u == '*' {
        56
    } else if u == '+' {
        57
    } else if u == ',' {
        58
    } else if u == '-' {
        59
    } else if u == '.' {
        60
    } else if u == '/' {
        61
    } else if u == ':' {
        62
    } else if u == '=' {
        63
    } else if u == '?' {
        64
    } else if u == '@' {
        65
    } else {
        15
    }
}

/// The ASCII byte of the character a code stands for.
fn code_byte(code: u8) -> (r: u8)
    ensures
        r == font_byte(code),
{
    if code == 15 {
        0x20
    } else if 16 <= code && code <= 25 {
        code - 16 + 0x30
    } else if 26 <= code && code <= 51 {
        code - 26 + 0x41
    } else if 52 <= code && code <= 65 {
        match code - 52 {
            0 => 0x21,
            1 => 0x22,
            2 => 0x23,
            3 => 0x60,
            4 => 0x2A,
            5 => 0x2B,
            6 => 0x2C,
            7 => 0x2D,
            8 => 0x2E,
            9 => 0x2F,
            10 => 0x3A,
            11 => 0x3D,
            12 => 0x3F,
            _ => 0x40,
        }
    } else {
        0
    }
}

/// The character a code stands for, or NUL for one the table does not list.
pub fn decode_char(code: u8) -> (r: char)
    ensures
        r == font_char(code),
{
    code_byte(code) as char
}

/// The code for a character, or the code for a space when the table does not carry it.
pub fn encode_char(character: char) -> (r: u8)
    ensures
        r == font_code(character),
{
    let upper = if 'a' <= character && character <= 'z' {
        ((character as u32) - 32) as u8 as char
    } else {
        character
    };
    if upper == '\0' {
        0
    } else if '0' <= upper && upper <= '9' {
        ((upper as u32) - 0x30 + 16) as u8
    } else if 'A' <= upper && upper <= 'Z' {
        ((upper as u32) - 0x41 + 26) as u8
    } else {
        match upper {
            '!' => 52,
            '"' => 53,
            '#' => 54,
            '`' => 55,
            '*' => 56,
            '+' => 57,
            ',' => 58,
            '-' => 59,
            '.' => 60,
            '/' => 61,
            ':' => 62,
            '=' => 63,
            '?' => 64,
            '@' => 65,
            _ => 15,
        }
    }
}

/// A run of bytes without its trailing white space.
pub open spec fn trim_end_bytes(b: Seq<u8>) -> Seq<u8>
    decreases b.len(),
{
    if b.len() > 0 && is_white_space(b.last() as char) {
        trim_end_bytes(b.drop_last())
    } else {
        b
    }
}

/// A run of bytes with every NUL taken out.
pub open spec fn drop_nuls(b: Seq<u8>) -> Seq<u8>
    decreases b.len(),
{
    if b.len() == 0 {
        Seq::empty()
    } else if b.last() == 0 {
        drop_nuls(b.drop_last())
    } else {
        drop_nuls(b.drop_last()).push(b.last())
    }
}

/// The text a run of codes spells: each code's character, the trailing white space a fixed field
/// pads with trimmed, and the NULs of unlisted codes dropped.
pub open spec fn font_text(codes: Seq<u8>) -> Seq<char> {
    ascii_text(drop_nuls(trim_end_bytes(codes.map_values(|c: u8| font_byte(c)))))
}

/// Every byte the table decodes to is ASCII.
proof fn lemma_font_byte_ascii(code: u8)
    ensures
        font_byte(code) < 0x80,
{
}

/// Decodes a run of codes, trimming the trailing spaces a fixed field pads with.
pub fn decode(bytes: &[u8]) -> (r: String)
    ensures
        r@ == font_text(bytes@),
{
    let ghost mapped = bytes@.map_values(|c: u8| font_byte(c));
    let mut end: usize = bytes.len();
    assert(mapped.take(end as int) =~= mapped);
    loop
        invariant
            end <= bytes@.len(),
            mapped.len() == bytes@.len(),
            mapped == bytes@.map_values(|c: u8| font_byte(c)),
            trim_end_bytes(mapped.take(end as int)) == trim_end_bytes(mapped),
        ensures
            end <= bytes@.len(),
            trim_end_bytes(mapped.take(end as int)) == trim_end_bytes(mapped),
            end == 0 || !is_white_space(mapped[end - 1] as char),
        decreases end,
    {
        if end == 0 {
            break;
        }
        let b = code_byte(bytes[end - 1]);
        assert(b == mapped[end - 1]);
        let c = b as char;
        if !crate::text::white_space(c) {
            break;
        }
        assert(mapped.take(end as int).drop_last() =~= mapped.take(end - 1));
        end = end - 1;
    }
    proof {
        let t = mapped.take(end as int);
        assert(t.len() == 0 || !is_white_space(t.last() as char));
        assert(trim_end_bytes(t) == t);
    }
    let mut kept: Vec<u8> = Vec::new();
    let mut i: usize = 0;
    while i < end
        invariant
            i <= end,
            end <= bytes@.len(),
            mapped == bytes@.map_values(|c: u8| font_byte(c)),
            kept@ == drop_nuls(mapped.take(i as int)),
            all_ascii(kept@),
        decreases end - i,
    {
        let b = code_byte(bytes[i]);
        proof {
            lemma_font_byte_ascii(bytes@[i as int]);
            assert(mapped.take(i + 1).drop_last() =~= mapped.take(i as int));
        }
        if b != 0 {
            kept.push(b);
        }
        i = i + 1;
    }
    proof {
        assert(mapped.take(end as int).take(end as int) =~= mapped.take(end as int));
    }
    ascii_string(kept.as_slice())
}

/// The field `encode` writes: each character's code, as many as fit, and zeros after.
pub open spec fn font_field(text: Seq<char>, len: int) -> Seq<u8> {
    Seq::new(len as nat, |i: int| if i < text.len() { font_code(text[i]) } else { 0u8 })
}

/// Encodes text into a field of `len` codes, truncating what does not fit.
pub fn encode(text: &str, len: usize) -> (r: Vec<u8>)
    ensures
        r@ == font_field(text@, len as int),
{
    let n = text.unicode_len();
    let mut field: Vec<u8> = Vec::new();
    let mut i: usize = 0;
    while i < len
        invariant
            i <= len,
            n == text@.len(),
            field@ == font_field(text@, len as int).take(i as int),
        decreases len - i,
    {
        if i < n {
            field.push(encode_char(text.get_char(i)));
        } else {
            field.push(0);
        }
        assert(field@ =~= font_field(text@, len as int).take(i + 1));
        i = i + 1;
    }
    assert(field@ =~= font_field(text@, len as int));
    field
}

/// Every code the table lists, from the space on, is the code its own character encodes to: the
/// table has no second spelling of anything it carries.
pub proof fn lemma_listed_codes_round_trip(code: u8)
    requires
        15 <= code <= 65,
    ensures
        font_code(font_char(code)) == code,
{
    let b = font_byte(code);
    assert(b < 0x80);
    assert((b as char) as u32 == b as u32);
}

/// A character the table carries decodes back from its code: upper-case as it is, lower-case
/// letters as their capitals.
pub proof fn lemma_carried_characters_round_trip(c: char)
    requires
        font_code(c) != 15 || c == ' ',
        c != '\0',
    ensures
        font_char(font_code(c)) == ascii_upper(c),
{
}

/// Whether the table carries a character as itself: it is not NUL, and its code decodes back to
/// it. That is the space, the digits, the capitals and the table's punctuation.
pub open spec fn in_table(c: char) -> bool {
    c != '\0' && font_char(font_code(c)) == c
}

/// The ASCII bytes of a run of characters.
pub open spec fn text_bytes(text: Seq<char>) -> Seq<u8> {
    Seq::new(text.len(), |i: int| text[i] as u8)
}

/// A run with no NUL in it loses nothing when its NULs are dropped.
proof fn lemma_no_nuls(b: Seq<u8>)
    requires
        forall|i: int| 0 <= i < b.len() ==> b[i] != 0,
    ensures
        drop_nuls(b) == b,
    decreases b.len(),
{
    if b.len() > 0 {
        lemma_no_nuls(b.drop_last());
        assert(b.drop_last().push(b.last()) =~= b);
    }
}

/// NULs after a run are dropped with the rest.
proof fn lemma_trailing_nuls(b: Seq<u8>, k: nat)
    ensures
        drop_nuls(b + Seq::new(k, |i: int| 0u8)) == drop_nuls(b),
    decreases k,
{
    if k > 0 {
        let z = Seq::new(k, |i: int| 0u8);
        assert((b + z).drop_last() =~= b + Seq::new((k - 1) as nat, |i: int| 0u8));
        lemma_trailing_nuls(b, (k - 1) as nat);
    }
}

/// A character the table carries is ASCII, and its code decodes to its own byte; the only white
/// space among them is the space.
proof fn lemma_in_table(c: char)
    requires
        in_table(c),
    ensures
        (c as u32) < 0x80,
        font_byte(font_code(c)) == c as u8,
        (c as u8) as char == c,
        c as u8 != 0,
        is_white_space(c) ==> c == ' ',
{
    let b = font_byte(font_code(c));
    lemma_font_byte_ascii(font_code(c));
    assert((b as char) as u32 == b as u32);
}

/// Decoding a name encoded into a field at least as long gives the name back: a name of the
/// characters the table carries, not ending in a space, survives being written into a note
/// entry and read out of it, the field's padding dropped.
pub proof fn lemma_a_name_round_trips(text: Seq<char>, len: int)
    requires
        text.len() <= len,
        forall|i: int| 0 <= i < text.len() ==> in_table(#[trigger] text[i]),
        text.len() == 0 || text.last() != ' ',
    ensures
        font_text(font_field(text, len)) == text,
{
    let field = font_field(text, len);
    let mapped = field.map_values(|c: u8| font_byte(c));
    let t = text_bytes(text);
    let k = (len - text.len()) as nat;
    assert forall|i: int| 0 <= i < text.len() implies t[i] != 0 && mapped[i] == t[i] && (t[i] as char)
        == text[i] by {
        lemma_in_table(text[i]);
    }
    assert(mapped =~= t + Seq::new(k, |i: int| 0u8));
    if mapped.len() > 0 {
        if k > 0 {
            assert(mapped.last() == 0);
        } else {
            lemma_in_table(text.last());
            assert(mapped.last() == text.last() as u8);
        }
        assert(!is_white_space(mapped.last() as char));
    }
    assert(trim_end_bytes(mapped) == mapped);
    lemma_trailing_nuls(t, k);
    lemma_no_nuls(t);
    assert(ascii_text(t) =~= text);
}

} // verus!
