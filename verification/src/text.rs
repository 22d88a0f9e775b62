//! Text as the cards and headers store it, and the comparisons names are looked up by.

use vstd::prelude::*;
use vstd::string::*;
use vstd::utf8::*;

verus! {

/// Two strings are the same text exactly when their bytes are the same.
pub proof fn lemma_same_bytes_same_text(a: &str, b: &str)
    ensures
        (a.spec_bytes() == b.spec_bytes()) == (a@ == b@),
{
    encode_utf8_decode_utf8(a@);
    encode_utf8_decode_utf8(b@);
}

/// Whether two strings hold the same text.
pub fn str_eq(a: &str, b: &str) -> (r: bool)
    ensures
        r == (a@ == b@),
{
    proof {
        lemma_same_bytes_same_text(a, b);
    }
    let x = a.as_bytes();
    let y = b.as_bytes();
    if x.len() != y.len() {
        return false;
    }
    let mut i: usize = 0;
    while i < x.len()
        invariant
            x@ == a.spec_bytes(),
            y@ == b.spec_bytes(),
            x@.len() == y@.len(),
            i <= x@.len(),
            forall|j: int| 0 <= j < i ==> x@[j] == y@[j],
        decreases x@.len() - i,
    {
        if x[i] != y[i] {
            return false;
        }
        i = i + 1;
    }
    assert(x@ =~= y@);
    true
}

/// What `String::from_utf8_lossy` makes of a run of bytes: the text they encode, with every
/// sequence that is not UTF-8 replaced by U+FFFD.
pub uninterp spec fn lossy_utf8(bytes: Seq<u8>) -> Seq<char>;

/// `String::from_utf8_lossy`, owned.
///
/// Its documentation says that bytes which are valid UTF-8 come back as the text they encode with
/// no conversion; what replaces an invalid sequence is left to the name.
#[verifier::external_body]
pub fn from_utf8_lossy(bytes: &[u8]) -> (s: String)
    ensures
        s@ == lossy_utf8(bytes@),
        valid_utf8(bytes@) ==> s@ == decode_utf8(bytes@),
{
    String::from_utf8_lossy(bytes).into_owned()
}

/// `String::push_str`: appends a string slice onto the end of a string.
#[verifier::external_body]
pub fn push_str(s: &mut String, other: &str)
    ensures
        final(s)@ == old(s)@ + other@,
{
    s.push_str(other);
}

/// `String::push`: appends a character onto the end of a string.
#[verifier::external_body]
pub fn push_char(s: &mut String, c: char)
    ensures
        final(s)@ == old(s)@.push(c),
{
    s.push(c);
}

/// The digit a number below ten is written with.
pub open spec fn digit_char(d: nat) -> char {
    ((d + 48) as u8) as char
}

/// A number written out in decimal, most significant digit first, with no leading zero: what
/// `ToString` gives for an unsigned integer.
pub open spec fn decimal_text(n: nat) -> Seq<char>
    decreases n,
{
    if n < 10 {
        seq![digit_char(n)]
    } else {
        decimal_text(n / 10).push(digit_char(n % 10))
    }
}

/// Appends a number in decimal.
pub fn push_decimal(s: &mut String, n: u64)
    ensures
        final(s)@ == old(s)@ + decimal_text(n as nat),
    decreases n,
{
    if n >= 10 {
        push_decimal(s, n / 10);
    }
    let d: u8 = (n % 10) as u8;
    push_char(s, (d + 48) as char);
    proof {
        assert(old(s)@ + decimal_text(n as nat) =~= s@);
    }
}

/// The characters of a run of ASCII bytes, one for each.
pub open spec fn ascii_text(bytes: Seq<u8>) -> Seq<char> {
    Seq::new(bytes.len(), |i: int| bytes[i] as char)
}

/// Whether every byte is ASCII.
pub open spec fn all_ascii(bytes: Seq<u8>) -> bool {
    forall|i: int| 0 <= i < bytes.len() ==> bytes[i] < 0x80
}

/// ASCII bytes are UTF-8, and decode to one character each.
pub proof fn lemma_ascii_decodes(bytes: Seq<u8>)
    requires
        all_ascii(bytes),
    ensures
        valid_utf8(bytes),
        decode_utf8(bytes) == ascii_text(bytes),
{
    let c = ascii_text(bytes);
    assert(is_ascii_chars(c)) by {
        assert forall|i| 0 <= i < c.len() implies '\0' <= #[trigger] c[i] <= '\u{7f}' by {
            assert(bytes[i] < 0x80);
        }
    }
    is_ascii_chars_encode_utf8(c);
    assert forall|i| 0 <= i < bytes.len() implies encode_utf8(c)[i] == bytes[i] by {
        assert(c[i] as u8 == encode_utf8(c)[i]);
        assert(c[i] == bytes[i] as char);
    }
    assert(encode_utf8(c) =~= bytes);
    encode_utf8_valid_utf8(c);
    encode_utf8_decode_utf8(c);
}

/// A string of ASCII bytes.
pub fn ascii_string(bytes: &[u8]) -> (s: String)
    requires
        all_ascii(bytes@),
    ensures
        s@ == ascii_text(bytes@),
{
    proof {
        lemma_ascii_decodes(bytes@);
    }
    from_utf8_lossy(bytes)
}

/// Whether a byte is printable ASCII other than a space, which is what `u8::is_ascii_graphic`
/// tests: `!` to `~`.
pub open spec fn is_graphic(b: u8) -> bool {
    0x21 <= b <= 0x7E
}

/// The printable bytes of a run, in order, with everything else dropped.
pub open spec fn graphic_only(bytes: Seq<u8>) -> Seq<u8>
    decreases bytes.len(),
{
    if bytes.len() == 0 {
        Seq::empty()
    } else if is_graphic(bytes.last()) {
        graphic_only(bytes.drop_last()).push(bytes.last())
    } else {
        graphic_only(bytes.drop_last())
    }
}

/// The printable characters of a run of bytes, with everything else dropped.
pub fn graphic_ascii(bytes: &[u8]) -> (s: String)
    ensures
        s@ == ascii_text(graphic_only(bytes@)),
{
    let mut kept: Vec<u8> = Vec::new();
    let mut i: usize = 0;
    while i < bytes.len()
        invariant
            i <= bytes@.len(),
            kept@ == graphic_only(bytes@.take(i as int)),
            all_ascii(kept@),
        decreases bytes@.len() - i,
    {
        assert(bytes@.take(i + 1).drop_last() =~= bytes@.take(i as int));
        if 0x21 <= bytes[i] && bytes[i] <= 0x7E {
            kept.push(bytes[i]);
        }
        i = i + 1;
    }
    assert(bytes@.take(bytes@.len() as int) =~= bytes@);
    ascii_string(kept.as_slice())
}

/// Where a fixed-width field's text stops: its first NUL at or after `i`, or its end.
pub open spec fn text_end(field: Seq<u8>, i: int) -> int
    decreases field.len() - i,
{
    if i < 0 || i >= field.len() || field[i] == 0 {
        i
    } else {
        text_end(field, i + 1)
    }
}

/// A fixed-width field's text: everything before its first NUL, or all of it.
pub open spec fn until_nul_spec(field: Seq<u8>) -> Seq<u8> {
    field.take(text_end(field, 0))
}

/// The text stops at the first NUL, and holds none.
pub proof fn lemma_text_end(field: Seq<u8>, i: int)
    requires
        0 <= i <= field.len(),
    ensures
        i <= text_end(field, i) <= field.len(),
        text_end(field, i) < field.len() ==> field[text_end(field, i)] == 0,
        forall|k: int| i <= k < text_end(field, i) ==> field[k] != 0,
    decreases field.len() - i,
{
    if i < field.len() && field[i] != 0 {
        lemma_text_end(field, i + 1);
    }
}

/// A fixed-width field runs to its first NUL, or to its end.
pub fn until_nul(field: &[u8]) -> (text: &[u8])
    ensures
        text@ == until_nul_spec(field@),
{
    let mut end: usize = 0;
    while end < field.len() && field[end] != 0
        invariant
            end <= field@.len(),
            text_end(field@, end as int) == text_end(field@, 0),
        decreases field@.len() - end,
    {
        end = end + 1;
    }
    &field[0..end]
}

/// Whether a character is white space as Unicode's `White_Space` property has it, which is what
/// `char::is_whitespace` and so `str::trim` go by.
pub open spec fn is_white_space(c: char) -> bool {
    ||| '\u{9}' <= c <= '\u{d}'
    ||| c == ' '
    ||| c == '\u{85}'
    ||| c == '\u{a0}'
    ||| c == '\u{1680}'
    ||| '\u{2000}' <= c <= '\u{200a}'
    ||| c == '\u{2028}'
    ||| c == '\u{2029}'
    ||| c == '\u{202f}'
    ||| c == '\u{205f}'
    ||| c == '\u{3000}'
}

/// Whether a character is white space.
pub fn white_space(c: char) -> (r: bool)
    ensures
        r == is_white_space(c),
{
    ('\u{9}' <= c && c <= '\u{d}') || c == ' ' || c == '\u{85}' || c == '\u{a0}' || c == '\u{1680}'
        || ('\u{2000}' <= c && c <= '\u{200a}') || c == '\u{2028}' || c == '\u{2029}' || c
        == '\u{202f}' || c == '\u{205f}' || c == '\u{3000}'
}

/// Text without its trailing white space.
pub open spec fn trim_end_chars(s: Seq<char>) -> Seq<char>
    decreases s.len(),
{
    if s.len() > 0 && is_white_space(s.last()) {
        trim_end_chars(s.drop_last())
    } else {
        s
    }
}

/// Text without its leading white space.
pub open spec fn trim_start_chars(s: Seq<char>) -> Seq<char>
    decreases s.len(),
{
    if s.len() > 0 && is_white_space(s[0]) {
        trim_start_chars(s.drop_first())
    } else {
        s
    }
}

/// Text without white space at either end.
pub open spec fn trim_chars(s: Seq<char>) -> Seq<char> {
    trim_start_chars(trim_end_chars(s))
}

/// Text without its trailing white space, as `str::trim_end` gives it.
pub fn trim_end(s: &str) -> (r: String)
    ensures
        r@ == trim_end_chars(s@),
{
    let n = s.unicode_len();
    let mut end: usize = n;
    assert(s@.take(n as int) =~= s@);
    loop
        invariant
            end <= s@.len(),
            n == s@.len(),
            trim_end_chars(s@.take(end as int)) == trim_end_chars(s@),
        ensures
            end <= s@.len(),
            trim_end_chars(s@.take(end as int)) == trim_end_chars(s@),
            end == 0 || !is_white_space(s@[end - 1]),
        decreases end,
    {
        if end == 0 {
            break;
        }
        let c = s.get_char(end - 1);
        if !white_space(c) {
            break;
        }
        assert(s@.take(end as int).drop_last() =~= s@.take(end - 1));
        end = end - 1;
    }
    proof {
        let t = s@.take(end as int);
        assert(t.len() == 0 || !is_white_space(t.last()));
        assert(trim_end_chars(t) == t);
    }
    s.substring_char(0, end).to_owned()
}

/// Text without its leading white space, as `str::trim_start` gives it.
pub fn trim_start(s: &str) -> (r: String)
    ensures
        r@ == trim_start_chars(s@),
{
    let n = s.unicode_len();
    let mut start: usize = 0;
    assert(s@.skip(0) =~= s@);
    loop
        invariant
            start <= n,
            n == s@.len(),
            trim_start_chars(s@.skip(start as int)) == trim_start_chars(s@),
        ensures
            start <= n,
            n == s@.len(),
            trim_start_chars(s@.skip(start as int)) == trim_start_chars(s@),
            start == n || !is_white_space(s@[start as int]),
        decreases n - start,
    {
        if start == n {
            break;
        }
        let c = s.get_char(start);
        if !white_space(c) {
            break;
        }
        assert(s@.skip(start as int).drop_first() =~= s@.skip(start + 1));
        start = start + 1;
    }
    proof {
        assert(s@.skip(0) =~= s@);
        let t = s@.skip(start as int);
        assert(t.len() == 0 || !is_white_space(t[0]));
        assert(trim_start_chars(t) == t);
        assert(s@.subrange(start as int, n as int) =~= t);
    }
    s.substring_char(start, n).to_owned()
}

/// Text without white space at either end, as `str::trim` gives it.
pub fn trim(s: &str) -> (r: String)
    ensures
        r@ == trim_chars(s@),
{
    let t = trim_end(s);
    trim_start(t.as_str())
}

/// A character with an ASCII capital made lower-case, as `char::to_ascii_lowercase`.
pub open spec fn lower_char(c: char) -> char {
    if 'A' <= c <= 'Z' {
        ((c as u32) + 32) as char
    } else {
        c
    }
}

/// Text with its ASCII capitals made lower-case, as `str::to_ascii_lowercase`.
pub open spec fn ascii_lowercase(s: Seq<char>) -> Seq<char> {
    s.map_values(|c: char| lower_char(c))
}

/// Whether two texts are the same once ASCII capitals are folded, as `str::eq_ignore_ascii_case`
/// compares them.
pub open spec fn same_ignoring_case(a: Seq<char>, b: Seq<char>) -> bool {
    ascii_lowercase(a) == ascii_lowercase(b)
}

/// A character with an ASCII capital made lower-case.
fn to_lower(c: char) -> (r: char)
    ensures
        r == lower_char(c),
{
    if 'A' <= c && c <= 'Z' {
        ((c as u32) + 32) as u8 as char
    } else {
        c
    }
}

/// Whether two texts are the same once ASCII capitals are folded.
pub fn eq_ignore_ascii_case(a: &str, b: &str) -> (r: bool)
    ensures
        r == same_ignoring_case(a@, b@),
{
    let n = a.unicode_len();
    if n != b.unicode_len() {
        proof {
            assert(ascii_lowercase(a@).len() != ascii_lowercase(b@).len());
        }
        return false;
    }
    let mut i: usize = 0;
    while i < n
        invariant
            i <= n,
            n == a@.len(),
            n == b@.len(),
            forall|k: int| 0 <= k < i ==> lower_char(#[trigger] a@[k]) == lower_char(b@[k]),
        decreases n - i,
    {
        if to_lower(a.get_char(i)) != to_lower(b.get_char(i)) {
            proof {
                assert(ascii_lowercase(a@)[i as int] != ascii_lowercase(b@)[i as int]);
            }
            return false;
        }
        i = i + 1;
    }
    assert(ascii_lowercase(a@) =~= ascii_lowercase(b@));
    true
}

} // verus!
