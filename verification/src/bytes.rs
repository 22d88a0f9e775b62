//! Fixed-width integers as the cards and footers store them.

use vstd::prelude::*;

verus! {

/// The little-endian 16-bit value at `at`.
pub open spec fn le16(s: Seq<u8>, at: int) -> int {
    s[at] + s[at + 1] * 256
}

/// The big-endian 16-bit value at `at`.
pub open spec fn be16(s: Seq<u8>, at: int) -> int {
    s[at] * 256 + s[at + 1]
}

/// The little-endian 32-bit value at `at`.
pub open spec fn le32(s: Seq<u8>, at: int) -> int {
    s[at] + s[at + 1] * 0x100 + s[at + 2] * 0x1_0000 + s[at + 3] * 0x100_0000
}

/// The big-endian 32-bit value at `at`.
pub open spec fn be32(s: Seq<u8>, at: int) -> int {
    s[at] * 0x100_0000 + s[at + 1] * 0x1_0000 + s[at + 2] * 0x100 + s[at + 3]
}

/// The little-endian 64-bit value at `at`.
pub open spec fn le64(s: Seq<u8>, at: int) -> int {
    le32(s, at) + le32(s, at + 4) * 0x1_0000_0000
}

/// Two's complement: the signed value a 64-bit pattern stands for.
pub open spec fn signed64(u: int) -> int {
    if u <= i64::MAX { u } else { u - 0x1_0000_0000_0000_0000 }
}

/// The unsigned pattern a signed 64-bit value is stored as.
pub open spec fn unsigned64(v: int) -> int {
    if v >= 0 { v } else { v + 0x1_0000_0000_0000_0000 }
}

/// The two little-endian bytes of a 16-bit value.
pub open spec fn le16_bytes(v: int) -> Seq<u8> {
    seq![(v % 0x100) as u8, (v / 0x100 % 0x100) as u8]
}

/// The four little-endian bytes of a 32-bit value.
pub open spec fn le32_bytes(v: int) -> Seq<u8> {
    seq![
        (v % 0x100) as u8,
        (v / 0x100 % 0x100) as u8,
        (v / 0x1_0000 % 0x100) as u8,
        (v / 0x100_0000 % 0x100) as u8,
    ]
}

/// The four big-endian bytes of a 32-bit value.
pub open spec fn be32_bytes(v: int) -> Seq<u8> {
    seq![
        (v / 0x100_0000 % 0x100) as u8,
        (v / 0x1_0000 % 0x100) as u8,
        (v / 0x100 % 0x100) as u8,
        (v % 0x100) as u8,
    ]
}

/// The two big-endian bytes of a 16-bit value.
pub open spec fn be16_bytes(v: int) -> Seq<u8> {
    seq![(v / 0x100 % 0x100) as u8, (v % 0x100) as u8]
}

/// The eight little-endian bytes of a 64-bit value.
pub open spec fn le64_bytes(v: int) -> Seq<u8> {
    le32_bytes(v % 0x1_0000_0000) + le32_bytes(v / 0x1_0000_0000)
}

/// Reading back what was written gives the value.
pub proof fn lemma_le32_round_trip(v: int)
    requires
        0 <= v < 0x1_0000_0000,
    ensures
        le32(le32_bytes(v), 0) == v,
        le32_bytes(v).len() == 4,
{
    let s = le32_bytes(v);
    assert(s[0] == v % 0x100);
    assert(s[1] == v / 0x100 % 0x100);
    assert(s[2] == v / 0x1_0000 % 0x100);
    assert(s[3] == v / 0x100_0000 % 0x100);
    assert(v == v % 0x100 + (v / 0x100 % 0x100) * 0x100 + (v / 0x1_0000 % 0x100) * 0x1_0000
        + (v / 0x100_0000 % 0x100) * 0x100_0000) by (nonlinear_arith)
        requires
            0 <= v < 0x1_0000_0000,
    ;
}

/// Writing what was read gives the bytes.
pub proof fn lemma_le32_bytes_of_read(s: Seq<u8>, at: int)
    requires
        0 <= at,
        at + 4 <= s.len(),
    ensures
        le32_bytes(le32(s, at)) == s.subrange(at, at + 4),
        0 <= le32(s, at) < 0x1_0000_0000,
{
    let (a, b, c, d) = (s[at] as int, s[at + 1] as int, s[at + 2] as int, s[at + 3] as int);
    let v = le32(s, at);
    assert(v == a + b * 0x100 + c * 0x1_0000 + d * 0x100_0000);
    assert(v % 0x100 == a && v / 0x100 % 0x100 == b && v / 0x1_0000 % 0x100 == c
        && v / 0x100_0000 % 0x100 == d && 0 <= v < 0x1_0000_0000) by (nonlinear_arith)
        requires
            0 <= a < 256,
            0 <= b < 256,
            0 <= c < 256,
            0 <= d < 256,
            v == a + b * 0x100 + c * 0x1_0000 + d * 0x100_0000,
    ;
    assert(le32_bytes(v) =~= s.subrange(at, at + 4));
}

/// The little-endian 16-bit value at `at`.
pub fn read_le16(bytes: &[u8], at: usize) -> (r: u16)
    requires
        at + 2 <= bytes@.len(),
    ensures
        r == le16(bytes@, at as int),
{
    bytes[at] as u16 + bytes[at + 1] as u16 * 256
}

/// The big-endian 16-bit value at `at`.
pub fn read_be16(bytes: &[u8], at: usize) -> (r: u16)
    requires
        at + 2 <= bytes@.len(),
    ensures
        r == be16(bytes@, at as int),
{
    bytes[at] as u16 * 256 + bytes[at + 1] as u16
}

/// The little-endian 32-bit value at `at`.
pub fn read_le32(bytes: &[u8], at: usize) -> (r: u32)
    requires
        at + 4 <= bytes@.len(),
    ensures
        r == le32(bytes@, at as int),
{
    bytes[at] as u32 + bytes[at + 1] as u32 * 0x100 + bytes[at + 2] as u32 * 0x1_0000
        + bytes[at + 3] as u32 * 0x100_0000
}

/// The big-endian 32-bit value at `at`.
pub fn read_be32(bytes: &[u8], at: usize) -> (r: u32)
    requires
        at + 4 <= bytes@.len(),
    ensures
        r == be32(bytes@, at as int),
{
    bytes[at] as u32 * 0x100_0000 + bytes[at + 1] as u32 * 0x1_0000 + bytes[at + 2] as u32 * 0x100
        + bytes[at + 3] as u32
}

/// The little-endian 64-bit value at `at`.
pub fn read_le64(bytes: &[u8], at: usize) -> (r: u64)
    requires
        at + 8 <= bytes@.len(),
    ensures
        r == le64(bytes@, at as int),
{
    let _len = bytes.len();
    let low = read_le32(bytes, at) as u64;
    let high = read_le32(bytes, at + 4) as u64;
    low + high * 0x1_0000_0000
}

/// The signed value a 64-bit pattern stands for.
pub fn to_signed64(u: u64) -> (r: i64)
    ensures
        r == signed64(u as int),
{
    if u <= i64::MAX as u64 {
        u as i64
    } else {
        let below = u64::MAX - u;
        -(below as i64) - 1
    }
}

/// The 64-bit pattern a signed value is stored as.
pub fn to_unsigned64(v: i64) -> (r: u64)
    ensures
        r == unsigned64(v as int),
{
    if v >= 0 {
        v as u64
    } else {
        let magnitude = (-(v + 1)) as u64;
        u64::MAX - magnitude
    }
}

/// Appends the little-endian bytes of a 32-bit value.
pub fn push_le32(out: &mut Vec<u8>, v: u32)
    ensures
        final(out)@ == old(out)@ + le32_bytes(v as int),
{
    out.push((v % 0x100) as u8);
    out.push((v / 0x100 % 0x100) as u8);
    out.push((v / 0x1_0000 % 0x100) as u8);
    out.push((v / 0x100_0000 % 0x100) as u8);
    assert(final(out)@ =~= old(out)@ + le32_bytes(v as int));
}

/// Appends the big-endian bytes of a 32-bit value.
pub fn push_be32(out: &mut Vec<u8>, v: u32)
    ensures
        final(out)@ == old(out)@ + be32_bytes(v as int),
{
    out.push((v / 0x100_0000 % 0x100) as u8);
    out.push((v / 0x1_0000 % 0x100) as u8);
    out.push((v / 0x100 % 0x100) as u8);
    out.push((v % 0x100) as u8);
    assert(final(out)@ =~= old(out)@ + be32_bytes(v as int));
}

/// Appends the little-endian bytes of a 64-bit value.
pub fn push_le64(out: &mut Vec<u8>, v: u64)
    ensures
        final(out)@ == old(out)@ + le64_bytes(v as int),
{
    let ghost start = out@;
    push_le32(out, (v % 0x1_0000_0000) as u32);
    push_le32(out, (v / 0x1_0000_0000) as u32);
    assert(out@ =~= start + le64_bytes(v as int));
}

/// A copy of a run of bytes.
pub fn copy_of(s: &[u8]) -> (r: Vec<u8>)
    ensures
        r@ == s@,
{
    let mut out: Vec<u8> = Vec::new();
    let mut i: usize = 0;
    while i < s.len()
        invariant
            i <= s@.len(),
            out@ == s@.take(i as int),
        decreases s@.len() - i,
    {
        out.push(s[i]);
        assert(s@.take(i + 1) =~= s@.take(i as int).push(s@[i as int]));
        i = i + 1;
    }
    assert(s@.take(s@.len() as int) =~= s@);
    out
}

/// Whether two runs of bytes are the same.
pub fn same_bytes(a: &[u8], b: &[u8]) -> (r: bool)
    ensures
        r == (a@ == b@),
{
    if a.len() != b.len() {
        return false;
    }
    let mut i: usize = 0;
    while i < a.len()
        invariant
            a@.len() == b@.len(),
            i <= a@.len(),
            a@.take(i as int) == b@.take(i as int),
        decreases a@.len() - i,
    {
        if a[i] != b[i] {
            assert(a@[i as int] != b@[i as int]);
            return false;
        }
        assert(a@.take(i + 1) =~= a@.take(i as int).push(a@[i as int]));
        assert(b@.take(i + 1) =~= b@.take(i as int).push(b@[i as int]));
        i = i + 1;
    }
    assert(a@.take(a@.len() as int) =~= a@);
    assert(b@.take(b@.len() as int) =~= b@);
    true
}

/// Appends a copy of a run of bytes.
pub fn push_all(out: &mut Vec<u8>, s: &[u8])
    ensures
        final(out)@ == old(out)@ + s@,
{
    let ghost start = out@;
    let mut i: usize = 0;
    while i < s.len()
        invariant
            i <= s@.len(),
            out@ == start + s@.take(i as int),
        decreases s@.len() - i,
    {
        out.push(s[i]);
        assert(s@.take(i + 1) =~= s@.take(i as int).push(s@[i as int]));
        i = i + 1;
    }
    assert(s@.take(s@.len() as int) =~= s@);
}

/// Appends `count` copies of one byte.
pub fn push_repeated(out: &mut Vec<u8>, byte: u8, count: usize)
    ensures
        final(out)@ == old(out)@ + Seq::new(count as nat, |i: int| byte),
{
    let ghost start = out@;
    let mut i: usize = 0;
    while i < count
        invariant
            i <= count,
            out@ == start + Seq::new(i as nat, |k: int| byte),
        decreases count - i,
    {
        out.push(byte);
        assert(Seq::new((i + 1) as nat, |k: int| byte) =~= Seq::new(i as nat, |k: int| byte).push(byte));
        i = i + 1;
    }
}

/// `n` zero bytes.
pub open spec fn zeros(n: int) -> Seq<u8> {
    Seq::new(n as nat, |i: int| 0u8)
}

/// How many units of `size` bytes a run of `len` bytes takes, rounded up.
pub open spec fn units_of(len: int, size: int) -> int {
    (len + size - 1) / size
}

/// How many units of `size` bytes a run of `len` bytes takes, rounded up.
pub fn ceil_div(len: usize, size: usize) -> (r: usize)
    requires
        size > 0,
    ensures
        r == units_of(len as int, size as int),
        r <= len / size + 1,
{
    proof {
        let l = len as int;
        let z = size as int;
        let q = l / z;
        let m = l % z;
        vstd::arithmetic::div_mod::lemma_fundamental_div_mod(l, z);
        vstd::arithmetic::div_mod::lemma_mod_bound(l, z);
        if m == 0 {
            vstd::arithmetic::div_mod::lemma_div_multiples_vanish_fancy(q, z - 1, z);
        } else {
            assert(z * (q + 1) == z * q + z) by (nonlinear_arith);
            assert(q <= z * q) by (nonlinear_arith)
                requires
                    z >= 1,
                    q >= 0,
            ;
            vstd::arithmetic::div_mod::lemma_div_multiples_vanish_fancy(q + 1, m - 1, z);
        }
    }
    len / size + if len % size != 0 {
        1
    } else {
        0
    }
}

/// A table of 16-bit entries as little-endian bytes.
pub open spec fn le16_words(words: Seq<u16>) -> Seq<u8>
    decreases words.len(),
{
    if words.len() == 0 {
        Seq::empty()
    } else {
        le16_words(words.drop_last()) + le16_bytes(words.last() as int)
    }
}

/// A table of 16-bit entries as big-endian bytes.
pub open spec fn be16_words(words: Seq<u16>) -> Seq<u8>
    decreases words.len(),
{
    if words.len() == 0 {
        Seq::empty()
    } else {
        be16_words(words.drop_last()) + be16_bytes(words.last() as int)
    }
}

/// Appends a table of 16-bit entries, little-endian or big-endian.
pub fn push_words(out: &mut Vec<u8>, words: &[u16], big_endian: bool)
    ensures
        final(out)@ == old(out)@ + if big_endian {
            be16_words(words@)
        } else {
            le16_words(words@)
        },
{
    let ghost start = out@;
    let mut i: usize = 0;
    while i < words.len()
        invariant
            i <= words@.len(),
            out@ == start + if big_endian {
                be16_words(words@.take(i as int))
            } else {
                le16_words(words@.take(i as int))
            },
        decreases words@.len() - i,
    {
        let v = words[i];
        if big_endian {
            out.push((v / 0x100) as u8);
            out.push((v % 0x100) as u8);
        } else {
            out.push((v % 0x100) as u8);
            out.push((v / 0x100) as u8);
        }
        proof {
            assert(words@.take(i + 1).drop_last() =~= words@.take(i as int));
            if big_endian {
                assert(out@ =~= start + be16_words(words@.take(i + 1)));
            } else {
                assert(out@ =~= start + le16_words(words@.take(i + 1)));
            }
        }
        i = i + 1;
    }
    assert(words@.take(words@.len() as int) =~= words@);
}

/// A table written little-endian is two bytes an entry, and each entry reads back from its two.
pub proof fn lemma_le16_words(w: Seq<u16>)
    ensures
        le16_words(w).len() == 2 * w.len(),
        forall|b: int| 0 <= b < w.len() ==> le16(le16_words(w), 2 * b) == #[trigger] w[b],
    decreases w.len(),
{
    if w.len() > 0 {
        let rest = w.drop_last();
        lemma_le16_words(rest);
        let out = le16_words(w);
        assert forall|b: int| 0 <= b < w.len() implies le16(out, 2 * b) == #[trigger] w[b] by {
            if b < w.len() - 1 {
                assert(rest[b] == w[b]);
                assert(out[2 * b] == le16_words(rest)[2 * b]);
                assert(out[2 * b + 1] == le16_words(rest)[2 * b + 1]);
            } else {
                let v = w.last() as int;
                assert(out[2 * b] == (v % 0x100) as u8);
                assert(out[2 * b + 1] == (v / 0x100 % 0x100) as u8);
            }
        }
    }
}

/// A table written big-endian is two bytes an entry, and each entry reads back from its two.
pub proof fn lemma_be16_words(w: Seq<u16>)
    ensures
        be16_words(w).len() == 2 * w.len(),
        forall|b: int| 0 <= b < w.len() ==> be16(be16_words(w), 2 * b) == #[trigger] w[b],
    decreases w.len(),
{
    if w.len() > 0 {
        let rest = w.drop_last();
        lemma_be16_words(rest);
        let out = be16_words(w);
        assert forall|b: int| 0 <= b < w.len() implies be16(out, 2 * b) == #[trigger] w[b] by {
            if b < w.len() - 1 {
                assert(rest[b] == w[b]);
                assert(out[2 * b] == be16_words(rest)[2 * b]);
                assert(out[2 * b + 1] == be16_words(rest)[2 * b + 1]);
            } else {
                let v = w.last() as int;
                assert(out[2 * b] == (v / 0x100 % 0x100) as u8);
                assert(out[2 * b + 1] == (v % 0x100) as u8);
            }
        }
    }
}

} // verus!
