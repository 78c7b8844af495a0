//! Fixed-width integers in byte strings, and the small copying helpers that
//! the packet builders and parsers share.
use vstd::prelude::*;

verus! {

/// The big-endian 16-bit integer at offset `at` of `s`.
pub open spec fn be16_at(s: Seq<u8>, at: int) -> int {
    s[at] * 256 + s[at + 1]
}

/// The big-endian 32-bit integer at offset `at` of `s`.
pub open spec fn be32_at(s: Seq<u8>, at: int) -> int {
    s[at] * 0x100_0000 + s[at + 1] * 0x1_0000 + s[at + 2] * 0x100 + s[at + 3]
}

/// The big-endian 64-bit integer at offset `at` of `s`.
pub open spec fn be64_at(s: Seq<u8>, at: int) -> int {
    be32_at(s, at) * 0x1_0000_0000 + be32_at(s, at + 4)
}

/// The little-endian 16-bit integer at offset `at` of `s`.
pub open spec fn le16_at(s: Seq<u8>, at: int) -> int {
    s[at] + s[at + 1] * 256
}

/// The little-endian 32-bit integer at offset `at` of `s`.
pub open spec fn le32_at(s: Seq<u8>, at: int) -> int {
    s[at] + s[at + 1] * 0x100 + s[at + 2] * 0x1_0000 + s[at + 3] * 0x100_0000
}

/// The little-endian 64-bit integer at offset `at` of `s`.
pub open spec fn le64_at(s: Seq<u8>, at: int) -> int {
    le32_at(s, at) + le32_at(s, at + 4) * 0x1_0000_0000
}

/// The two bytes of `x`, most significant first.
pub open spec fn be16_bytes(x: u16) -> Seq<u8> {
    seq![(x / 256) as u8, (x % 256) as u8]
}

/// The four bytes of `x`, most significant first.
pub open spec fn be32_bytes(x: u32) -> Seq<u8> {
    seq![
        (x / 0x100_0000) as u8,
        (x / 0x1_0000 % 0x100) as u8,
        (x / 0x100 % 0x100) as u8,
        (x % 0x100) as u8,
    ]
}

/// The bytes of `x`, most significant first.
pub open spec fn be64_bytes(x: u64) -> Seq<u8> {
    be32_bytes((x / 0x1_0000_0000) as u32) + be32_bytes((x % 0x1_0000_0000) as u32)
}

/// In a big-endian integer the byte at the lowest offset weighs most: changing byte `k`
/// changes the value by the difference times 256 to the number of bytes behind it, and
/// bytes that are all zero stand for zero.
pub proof fn law_big_endian(s: Seq<u8>, at: int, k: int, b: u8)
    requires
        0 <= at,
        at + 8 <= s.len(),
        0 <= k < 8,
    ensures
        ({
            let t = s.update(at + k, b);
            let d = b - s[at + k];
            &&& be16_at(t, at) - be16_at(s, at) == (if k == 0 {
                d * 256
            } else if k == 1 {
                d
            } else {
                0
            })
            &&& be32_at(t, at) - be32_at(s, at) == (if k == 0 {
                d * 16777216
            } else if k == 1 {
                d * 65536
            } else if k == 2 {
                d * 256
            } else if k == 3 {
                d
            } else {
                0
            })
            &&& be64_at(t, at) - be64_at(s, at) == (if k < 4 {
                (be32_at(t, at) - be32_at(s, at)) * 4294967296
            } else {
                be32_at(t, at + 4) - be32_at(s, at + 4)
            })
        }),
        (forall|j: int| at <= j < at + 8 ==> #[trigger] s[j] == 0) ==> be16_at(s, at) == 0
            && be32_at(s, at) == 0 && be64_at(s, at) == 0,
{
}

/// In a little-endian integer the byte at the highest offset weighs most: changing byte `k`
/// changes the value by the difference times 256 to the number of bytes before it, and
/// bytes that are all zero stand for zero.
pub proof fn law_little_endian(s: Seq<u8>, at: int, k: int, b: u8)
    requires
        0 <= at,
        at + 8 <= s.len(),
        0 <= k < 8,
    ensures
        ({
            let t = s.update(at + k, b);
            let d = b - s[at + k];
            &&& le16_at(t, at) - le16_at(s, at) == (if k == 0 {
                d
            } else if k == 1 {
                d * 256
            } else {
                0
            })
            &&& le32_at(t, at) - le32_at(s, at) == (if k == 0 {
                d
            } else if k == 1 {
                d * 256
            } else if k == 2 {
                d * 65536
            } else if k == 3 {
                d * 16777216
            } else {
                0
            })
            &&& le64_at(t, at) - le64_at(s, at) == (if k < 4 {
                le32_at(t, at) - le32_at(s, at)
            } else {
                (le32_at(t, at + 4) - le32_at(s, at + 4)) * 4294967296
            })
        }),
        (forall|j: int| at <= j < at + 8 ==> #[trigger] s[j] == 0) ==> le16_at(s, at) == 0
            && le32_at(s, at) == 0 && le64_at(s, at) == 0,
{
}

/// What is written most significant byte first is read back, wherever it stands.
pub proof fn law_written_is_read(before: Seq<u8>, after: Seq<u8>, x: u16, y: u32, z: u64)
    ensures
        be16_at(before + be16_bytes(x) + after, before.len() as int) == x,
        be32_at(before + be32_bytes(y) + after, before.len() as int) == y,
        be64_at(before + be64_bytes(z) + after, before.len() as int) == z,
        be16_bytes(x).len() == 2,
        be32_bytes(y).len() == 4,
        be64_bytes(z).len() == 8,
{
    let a = before + be64_bytes(z) + after;
    let n = before.len() as int;
    let hi = (z / 0x1_0000_0000) as u32;
    let lo = (z % 0x1_0000_0000) as u32;
    lemma_be32(hi);
    lemma_be32(lo);
    lemma_be32(y);
    assert(a.subrange(n, n + 4) =~= be32_bytes(hi));
    assert(a.subrange(n + 4, n + 8) =~= be32_bytes(lo));
    assert(a.subrange(n, n + 4)[0] == a[n]);
    assert(a.subrange(n, n + 4)[1] == a[n + 1]);
    assert(a.subrange(n, n + 4)[2] == a[n + 2]);
    assert(a.subrange(n, n + 4)[3] == a[n + 3]);
    assert(a.subrange(n + 4, n + 8)[0] == a[n + 4]);
    assert(a.subrange(n + 4, n + 8)[1] == a[n + 5]);
    assert(a.subrange(n + 4, n + 8)[2] == a[n + 6]);
    assert(a.subrange(n + 4, n + 8)[3] == a[n + 7]);
    assert(be32_at(a, n) == hi);
    assert(be32_at(a, n + 4) == lo);
}

/// The four bytes of a 32-bit integer stand for it.
pub proof fn lemma_be32(x: u32)
    ensures
        be32_at(be32_bytes(x), 0) == x,
{
    assert(x / 0x1_0000 % 0x100 == x / 0x1_0000 - x / 0x100_0000 * 0x100);
    assert(x / 0x100 % 0x100 == x / 0x100 - x / 0x1_0000 * 0x100);
}

/// Eight bytes make a 64-bit integer.
pub proof fn lemma_le64_range(s: Seq<u8>, at: int)
    ensures
        0 <= le64_at(s, at) < 0x1_0000_0000_0000_0000,
{
}

/// Reads a big-endian 16-bit integer.
pub fn be16(s: &[u8], at: usize) -> (r: u16)
    requires
        at + 2 <= s@.len(),
    ensures
        r == be16_at(s@, at as int),
{
    (s[at] as u16) * 256 + s[at + 1] as u16
}

/// Reads a big-endian 32-bit integer.
pub fn be32(s: &[u8], at: usize) -> (r: u32)
    requires
        at + 4 <= s@.len(),
    ensures
        r == be32_at(s@, at as int),
{
    (s[at] as u32) * 0x100_0000 + (s[at + 1] as u32) * 0x1_0000 + (s[at + 2] as u32) * 0x100
        + s[at + 3] as u32
}

/// Reads a big-endian 64-bit integer.
pub fn be64(s: &[u8], at: usize) -> (r: u64)
    requires
        at + 8 <= s@.len(),
    ensures
        r == be64_at(s@, at as int),
{
    assert(s.len() == s@.len());
    let hi: u32 = be32(s, at);
    let lo: u32 = be32(s, at + 4);
    (hi as u64) * 0x1_0000_0000 + lo as u64
}

/// Reads a little-endian 16-bit integer.
pub fn le16(s: &[u8], at: usize) -> (r: u16)
    requires
        at + 2 <= s@.len(),
    ensures
        r == le16_at(s@, at as int),
{
    s[at] as u16 + (s[at + 1] as u16) * 256
}

/// Reads a little-endian 32-bit integer.
pub fn le32(s: &[u8], at: usize) -> (r: u32)
    requires
        at + 4 <= s@.len(),
    ensures
        r == le32_at(s@, at as int),
{
    s[at] as u32 + (s[at + 1] as u32) * 0x100 + (s[at + 2] as u32) * 0x1_0000
        + (s[at + 3] as u32) * 0x100_0000
}

/// Reads a little-endian 64-bit integer.
pub fn le64(s: &[u8], at: usize) -> (r: u64)
    requires
        at + 8 <= s@.len(),
    ensures
        r == le64_at(s@, at as int),
{
    assert(s.len() == s@.len());
    let lo: u32 = le32(s, at);
    let hi: u32 = le32(s, at + 4);
    lo as u64 + (hi as u64) * 0x1_0000_0000
}

/// Appends the bytes of `s`.
pub fn push_all(v: &mut Vec<u8>, s: &[u8])
    ensures
        final(v)@ == old(v)@ + s@,
{
    let mut i: usize = 0;
    while i < s.len()
        invariant
            i <= s@.len(),
            v@ == old(v)@ + s@.take(i as int),
        decreases s@.len() - i,
    {
        v.push(s[i]);
        assert(s@.take(i + 1) =~= s@.take(i as int).push(s@[i as int]));
        i = i + 1;
    }
    assert(s@.take(i as int) =~= s@);
}

/// Appends `x`, most significant byte first.
pub fn push_be16(v: &mut Vec<u8>, x: u16)
    ensures
        final(v)@ == old(v)@ + be16_bytes(x),
{
    v.push((x / 256) as u8);
    v.push((x % 256) as u8);
}

/// Appends `x`, most significant byte first.
pub fn push_be32(v: &mut Vec<u8>, x: u32)
    ensures
        final(v)@ == old(v)@ + be32_bytes(x),
{
    v.push((x / 0x100_0000) as u8);
    v.push((x / 0x1_0000 % 0x100) as u8);
    v.push((x / 0x100 % 0x100) as u8);
    v.push((x % 0x100) as u8);
}

/// Appends `x`, most significant byte first.
pub fn push_be64(v: &mut Vec<u8>, x: u64)
    ensures
        final(v)@ == old(v)@ + be64_bytes(x),
{
    push_be32(v, (x / 0x1_0000_0000) as u32);
    push_be32(v, (x % 0x1_0000_0000) as u32);
    assert(v@ =~= old(v)@ + be64_bytes(x));
}

/// Appends `x`, least significant byte first.
pub fn push_le32(v: &mut Vec<u8>, x: u32)
    ensures
        final(v)@.len() == old(v)@.len() + 4,
        final(v)@.take(old(v)@.len() as int) == old(v)@,
        le32_at(final(v)@, old(v)@.len() as int) == x,
{
    v.push((x % 0x100) as u8);
    v.push((x / 0x100 % 0x100) as u8);
    v.push((x / 0x1_0000 % 0x100) as u8);
    v.push((x / 0x100_0000) as u8);
    assert(v@.take(old(v)@.len() as int) =~= old(v)@);
}

/// Appends `n` zero bytes.
pub fn push_zeros(v: &mut Vec<u8>, n: usize)
    ensures
        final(v)@ == old(v)@ + Seq::new(n as nat, |i: int| 0u8),
{
    let mut i: usize = 0;
    while i < n
        invariant
            i <= n,
            v@ == old(v)@ + Seq::new(i as nat, |j: int| 0u8),
        decreases n - i,
    {
        v.push(0);
        assert(Seq::new((i + 1) as nat, |j: int| 0u8) =~= Seq::new(i as nat, |j: int| 0u8).push(
            0u8,
        ));
        i = i + 1;
    }
}

/// The four bytes at offset `at`.
pub fn array4(s: &[u8], at: usize) -> (r: [u8; 4])
    requires
        at + 4 <= s@.len(),
    ensures
        r@ == s@.subrange(at as int, at + 4),
{
    let r: [u8; 4] = [s[at], s[at + 1], s[at + 2], s[at + 3]];
    assert(r@ =~= s@.subrange(at as int, at + 4));
    r
}

/// The six bytes at offset `at`.
pub fn array6(s: &[u8], at: usize) -> (r: [u8; 6])
    requires
        at + 6 <= s@.len(),
    ensures
        r@ == s@.subrange(at as int, at + 6),
{
    let r: [u8; 6] = [s[at], s[at + 1], s[at + 2], s[at + 3], s[at + 4], s[at + 5]];
    assert(r@ =~= s@.subrange(at as int, at + 6));
    r
}

/// Compares two four-byte addresses.
pub fn same4(a: &[u8; 4], b: &[u8; 4]) -> (r: bool)
    ensures
        r == (a@ == b@),
{
    let r: bool = a[0] == b[0] && a[1] == b[1] && a[2] == b[2] && a[3] == b[3];
    if r {
        assert(a@ =~= b@);
    }
    r
}

/// Compares two byte strings.
pub fn same_bytes(a: &[u8], b: &[u8]) -> (r: bool)
    ensures
        r == (a@ == b@),
{
    if a.len() != b.len() {
        return false;
    }
    let mut i: usize = 0;
    while i < a.len()
        invariant
            a@.len() == b@.len(),
            i <= a@.len(),
            forall|j: int| 0 <= j < i ==> a@[j] == b@[j],
        decreases a@.len() - i,
    {
        if a[i] != b[i] {
            return false;
        }
        i = i + 1;
    }
    assert(a@ =~= b@);
    true
}

/// Compares two strings.
pub fn same_str(a: &str, b: &str) -> (r: bool)
    ensures
        r == (a@ == b@),
{
    proof {
        vstd::utf8::encode_utf8_decode_utf8(a@);
        vstd::utf8::encode_utf8_decode_utf8(b@);
    }
    same_bytes(a.as_bytes(), b.as_bytes())
}

} // verus!
