//! Numbers as bytes.

use vstd::prelude::*;

verus! {

/// `n` in two bytes, the least significant first.
pub open spec fn le16_of(n: u16) -> Seq<u8> {
    seq![(n % 0x100) as u8, (n / 0x100) as u8]
}

/// `n` in four bytes, the least significant first.
pub open spec fn le32_of(n: u32) -> Seq<u8> {
    seq![
        (n % 0x100) as u8,
        (n / 0x100 % 0x100) as u8,
        (n / 0x1_0000 % 0x100) as u8,
        (n / 0x100_0000) as u8,
    ]
}

/// The number that four bytes are, the least significant first.
pub open spec fn from_le32(b: Seq<u8>) -> int {
    b[0] + b[1] * 0x100 + b[2] * 0x1_0000 + b[3] * 0x100_0000
}

/// Four bytes hold every number that they are written for.
pub proof fn le32_reads_back(n: u32)
    ensures
        from_le32(le32_of(n)) == n,
        le32_of(n).len() == 4,
{
}

pub fn push_le16(out: &mut Vec<u8>, n: u16)
    ensures
        final(out)@ == old(out)@ + le16_of(n),
{
    out.push((n % 0x100) as u8);
    out.push((n / 0x100) as u8);
    assert(out@ =~= old(out)@ + le16_of(n));
}

pub fn push_le32(out: &mut Vec<u8>, n: u32)
    ensures
        final(out)@ == old(out)@ + le32_of(n),
{
    out.push((n % 0x100) as u8);
    out.push((n / 0x100 % 0x100) as u8);
    out.push((n / 0x1_0000 % 0x100) as u8);
    out.push((n / 0x100_0000) as u8);
    assert(out@ =~= old(out)@ + le32_of(n));
}

/// `n` in two bytes, the most significant first.
pub open spec fn be16_of(n: u16) -> Seq<u8> {
    seq![(n / 0x100) as u8, (n % 0x100) as u8]
}

/// `n` in eight bytes, the most significant first.
pub open spec fn be64_of(n: u64) -> Seq<u8> {
    seq![
        (n / 0x100_0000_0000_0000) as u8,
        (n / 0x1_0000_0000_0000 % 0x100) as u8,
        (n / 0x100_0000_0000 % 0x100) as u8,
        (n / 0x1_0000_0000 % 0x100) as u8,
        (n / 0x100_0000 % 0x100) as u8,
        (n / 0x1_0000 % 0x100) as u8,
        (n / 0x100 % 0x100) as u8,
        (n % 0x100) as u8,
    ]
}

/// The number that the bytes from place `i` on are, `count` of them, the most
/// significant first.
pub open spec fn from_be(b: Seq<u8>, i: int, count: nat) -> int
    decreases count,
{
    if count == 0 {
        0
    } else {
        from_be(b, i, (count - 1) as nat) * 0x100 + b[i + count - 1]
    }
}

/// Two and eight bytes hold every number that they are written for.
pub proof fn be_reads_back(b: Seq<u8>, i: int, n: u16, m: u64)
    requires
        0 <= i <= b.len(),
    ensures
        i + 2 <= b.len() && b.subrange(i, i + 2) == be16_of(n) ==> from_be(b, i, 2) == n,
        i + 8 <= b.len() && b.subrange(i, i + 8) == be64_of(m) ==> from_be(b, i, 8) == m,
{
    if i + 2 <= b.len() && b.subrange(i, i + 2) == be16_of(n) {
        assert(b.subrange(i, i + 2)[0] == b[i] && b.subrange(i, i + 2)[1] == b[i + 1]);
        reveal_with_fuel(from_be, 3);
    }
    if i + 8 <= b.len() && b.subrange(i, i + 8) == be64_of(m) {
        let s = b.subrange(i, i + 8);
        assert(s[0] == b[i] && s[1] == b[i + 1] && s[2] == b[i + 2] && s[3] == b[i + 3]);
        assert(s[4] == b[i + 4] && s[5] == b[i + 5] && s[6] == b[i + 6] && s[7] == b[i + 7]);
        assert(from_be(b, i, 0) == 0);
        assert(from_be(b, i, 1) == m / 0x100_0000_0000_0000);
        lemma_next_byte(m as int, 0x1_0000_0000_0000);
        assert(from_be(b, i, 2) == m / 0x1_0000_0000_0000);
        lemma_next_byte(m as int, 0x100_0000_0000);
        assert(from_be(b, i, 3) == m / 0x100_0000_0000);
        lemma_next_byte(m as int, 0x1_0000_0000);
        assert(from_be(b, i, 4) == m / 0x1_0000_0000);
        lemma_next_byte(m as int, 0x100_0000);
        assert(from_be(b, i, 5) == m / 0x100_0000);
        lemma_next_byte(m as int, 0x1_0000);
        assert(from_be(b, i, 6) == m / 0x1_0000);
        lemma_next_byte(m as int, 0x100);
        assert(from_be(b, i, 7) == m / 0x100);
        assert(from_be(b, i, 8) == m);
    }
}

proof fn lemma_next_byte(m: int, unit: int)
    requires
        m >= 0,
        unit > 0,
    ensures
        m / (unit * 0x100) * 0x100 + m / unit % 0x100 == m / unit,
{
    vstd::arithmetic::div_mod::lemma_div_denominator(m, unit, 0x100);
}

pub fn push_be16(out: &mut Vec<u8>, n: u16)
    ensures
        final(out)@ == old(out)@ + be16_of(n),
{
    out.push((n / 0x100) as u8);
    out.push((n % 0x100) as u8);
    assert(out@ =~= old(out)@ + be16_of(n));
}

pub fn push_be64(out: &mut Vec<u8>, n: u64)
    ensures
        final(out)@ == old(out)@ + be64_of(n),
{
    out.push((n / 0x100_0000_0000_0000) as u8);
    out.push((n / 0x1_0000_0000_0000 % 0x100) as u8);
    out.push((n / 0x100_0000_0000 % 0x100) as u8);
    out.push((n / 0x1_0000_0000 % 0x100) as u8);
    out.push((n / 0x100_0000 % 0x100) as u8);
    out.push((n / 0x1_0000 % 0x100) as u8);
    out.push((n / 0x100 % 0x100) as u8);
    out.push((n % 0x100) as u8);
    assert(out@ =~= old(out)@ + be64_of(n));
}

/// Puts the bytes of `more` behind `out`.
pub fn push_all(out: &mut Vec<u8>, more: &[u8])
    ensures
        final(out)@ == old(out)@ + more@,
{
    let mut i: usize = 0;
    assert(out@ + more@.take(0) =~= out@);
    while i < more.len()
        invariant
            i <= more@.len(),
            out@ == old(out)@ + more@.take(i as int),
        decreases more.len() - i,
    {
        out.push(more[i]);
        i = i + 1;
        assert(more@.take(i as int) =~= more@.take(i - 1).push(more@[i - 1]));
        assert(out@ =~= old(out)@ + more@.take(i as int));
    }
    assert(more@.take(more@.len() as int) =~= more@);
}

/// The bytes of a text of ASCII characters.
pub open spec fn ascii_of(s: Seq<char>) -> Seq<u8> {
    s.map_values(|c: char| c as u8)
}

/// Puts the bytes of a text of ASCII characters behind `out`.
pub fn push_ascii(out: &mut Vec<u8>, s: &str)
    requires
        forall|i: int| 0 <= i < s@.len() ==> (#[trigger] s@[i] as int) < 0x80,
    ensures
        final(out)@ == old(out)@ + ascii_of(s@),
{
    let chars = crate::text::chars_of(s);
    let mut i: usize = 0;
    assert(out@ + ascii_of(s@).take(0) =~= out@);
    while i < chars.len()
        invariant
            i <= chars@.len(),
            chars@ == s@,
            forall|k: int| 0 <= k < s@.len() ==> (#[trigger] s@[k] as int) < 0x80,
            out@ == old(out)@ + ascii_of(s@).take(i as int),
        decreases chars.len() - i,
    {
        let c: char = chars[i];
        assert(c == s@[i as int]);
        out.push(c as u8);
        i = i + 1;
        assert(out@ =~= old(out)@ + ascii_of(s@).take(i as int));
    }
    assert(ascii_of(s@).take(s@.len() as int) =~= ascii_of(s@));
}

/// Puts the bytes of a text behind `out`.
pub fn push_str(out: &mut Vec<u8>, s: &str)
    ensures
        final(out)@ == old(out)@ + vstd::utf8::encode_utf8(s@),
{
    push_all(out, s.as_bytes());
}

} // verus!
