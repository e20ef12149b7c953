//! The WAV format: one channel of 16-bit samples.

use crate::bytes;
use crate::bytes::{push_ascii, push_le16, push_le32};
use crate::float;
use vstd::arithmetic::power2;
use vstd::prelude::*;

verus! {

/// The length of the header.
pub const HEADER_LEN: u64 = 44;

/// What the size in the header counts besides the samples.
pub const RIFF_EXTRA: u32 = 36;

/// The header of a recording.
pub open spec fn header_of(rate: u32, data_bytes: u32) -> Seq<u8> {
    bytes::ascii_of("RIFF"@) + bytes::le32_of((RIFF_EXTRA + data_bytes) as u32) + bytes::ascii_of("WAVE"@) + bytes::ascii_of(
        "fmt "@,
    ) + bytes::le32_of(16) + bytes::le16_of(1) + bytes::le16_of(1) + bytes::le32_of(rate) + bytes::le32_of((rate * 2) as u32)
        + bytes::le16_of(2) + bytes::le16_of(16) + bytes::ascii_of("data"@) + bytes::le32_of(data_bytes)
}

/// The header is as long as it is said to be, and the two sizes stand where
/// they are put in at the end.
pub proof fn header_layout(rate: u32, data_bytes: u32)
    ensures
        header_of(rate, data_bytes).len() == HEADER_LEN,
        header_of(rate, data_bytes).subrange(4, 8) == bytes::le32_of((RIFF_EXTRA + data_bytes) as u32),
        header_of(rate, data_bytes).subrange(24, 28) == bytes::le32_of(rate),
        header_of(rate, data_bytes).subrange(40, 44) == bytes::le32_of(data_bytes),
{
    reveal_strlit("RIFF");
    reveal_strlit("WAVE");
    reveal_strlit("fmt ");
    reveal_strlit("data");
    let h = header_of(rate, data_bytes);
    assert(h.subrange(4, 8) =~= bytes::le32_of((RIFF_EXTRA + data_bytes) as u32));
    assert(h.subrange(24, 28) =~= bytes::le32_of(rate));
    assert(h.subrange(40, 44) =~= bytes::le32_of(data_bytes));
}

/// A player reads from the header one channel of samples of two bytes, so many a
/// second, and how many bytes of them there are.
pub proof fn header_tells_the_form(rate: u32, data_bytes: u32)
    requires
        rate * 2 <= u32::MAX,
        36 + data_bytes <= u32::MAX,
    ensures
        ({
            let h = header_of(rate, data_bytes);
            &&& h.subrange(0, 4) == bytes::ascii_of("RIFF"@)
            &&& bytes::from_le32(h.subrange(4, 8)) == 36 + data_bytes
            &&& h.subrange(8, 12) == bytes::ascii_of("WAVE"@)
            &&& h.subrange(12, 16) == bytes::ascii_of("fmt "@)
            &&& bytes::from_le32(h.subrange(16, 20)) == 16
            &&& h[20] == 1 && h[21] == 0
            &&& h[22] == 1 && h[23] == 0
            &&& bytes::from_le32(h.subrange(24, 28)) == rate
            &&& bytes::from_le32(h.subrange(28, 32)) == 2 * rate
            &&& h[32] == 2 && h[33] == 0
            &&& h[34] == 16 && h[35] == 0
            &&& h.subrange(36, 40) == bytes::ascii_of("data"@)
            &&& bytes::from_le32(h.subrange(40, 44)) == data_bytes
        }),
{
    let h = header_of(rate, data_bytes);
    reveal_strlit("RIFF");
    reveal_strlit("WAVE");
    reveal_strlit("fmt ");
    reveal_strlit("data");
    bytes::le32_reads_back((36 + data_bytes) as u32);
    bytes::le32_reads_back(16);
    bytes::le32_reads_back(rate);
    bytes::le32_reads_back((rate * 2) as u32);
    bytes::le32_reads_back(data_bytes);
    assert(h.subrange(0, 4) =~= bytes::ascii_of("RIFF"@));
    assert(h.subrange(4, 8) =~= bytes::le32_of((36 + data_bytes) as u32));
    assert(h.subrange(8, 12) =~= bytes::ascii_of("WAVE"@));
    assert(h.subrange(12, 16) =~= bytes::ascii_of("fmt "@));
    assert(h.subrange(16, 20) =~= bytes::le32_of(16));
    assert(h.subrange(24, 28) =~= bytes::le32_of(rate));
    assert(h.subrange(28, 32) =~= bytes::le32_of((rate * 2) as u32));
    assert(h.subrange(36, 40) =~= bytes::ascii_of("data"@));
    assert(h.subrange(40, 44) =~= bytes::le32_of(data_bytes));
}

/// A sample, given by the bits of its `f32`, in 16 bits: cut to the range from
/// -1 to 1, times 32767, towards zero. What is no number is 0.
pub open spec fn quantize_of(bits: u32) -> int {
    let magnitude = bits % 0x8000_0000;
    let q = if magnitude > 0x7F80_0000 || magnitude < 0x0080_0000 {
        0
    } else if magnitude >= 0x3F80_0000 {
        32767
    } else {
        let significand = 0x0080_0000 + magnitude % 0x0080_0000;
        let product = float::round_of((significand * 32767) as nat, 24);
        product as int / power2::pow2((150 - magnitude / 0x0080_0000) as nat) as int
    };
    if bits >= 0x8000_0000 {
        -q
    } else {
        q
    }
}

/// Every sample fits in 16 bits.
pub proof fn quantize_in_range(bits: u32)
    ensures
        -32767 <= quantize_of(bits) <= 32767,
{
    vstd::arithmetic::power2::lemma2_to64();
    let magnitude = bits % 0x8000_0000;
    if 0x0080_0000 <= magnitude < 0x3F80_0000 {
        let significand = 0x0080_0000 + magnitude % 0x0080_0000;
        let n = (significand * 32767) as nat;
        let shift = (150 - magnitude / 0x0080_0000) as nat;
        let unit = power2::pow2(float::excess_of(n, 24));
        vstd::arithmetic::power2::lemma_pow2_adds(24, 15);
        float::lemma_excess_bound(n, 24, 15);
        if float::excess_of(n, 24) < 15 {
            vstd::arithmetic::power2::lemma_pow2_strictly_increases(float::excess_of(n, 24), 15);
        }
        vstd::arithmetic::power2::lemma_pow2_pos(float::excess_of(n, 24));
        float::lemma_nearest_close(n, unit);
        if shift > 24 {
            vstd::arithmetic::power2::lemma_pow2_strictly_increases(24, shift);
        }
        let product = float::round_of(n, 24);
        let p = power2::pow2(shift) as int;
        assert(0 <= product as int / p <= 32767) by (nonlinear_arith)
            requires
                0 <= product <= 0x100_0000 * 32767,
                p >= 0x100_0000,
        ;
    }
}

/// A sample, given by the bits of its `f32`, in 16 bits.
pub fn quantize(bits: u32) -> (r: i16)
    ensures
        r == quantize_of(bits),
{
    proof {
        quantize_in_range(bits);
        vstd::arithmetic::power2::lemma2_to64();
    }
    let magnitude: u32 = bits % 0x8000_0000;
    let q: i16 = if magnitude > 0x7F80_0000 || magnitude < 0x0080_0000 {
        0
    } else if magnitude >= 0x3F80_0000 {
        32767
    } else {
        let significand: u32 = 0x0080_0000 + magnitude % 0x0080_0000;
        let product = float::round(significand as u128 * 32767, 24);
        float::shift_down(product, 150 - magnitude / 0x0080_0000) as i16
    };
    if bits >= 0x8000_0000 {
        -q
    } else {
        q
    }
}

/// A signed 16-bit number in two bytes, the least significant first.
pub open spec fn le_i16_of(n: int) -> Seq<u8> {
    bytes::le16_of(
        (if n < 0 {
            n + 0x1_0000
        } else {
            n
        }) as u16,
    )
}

/// The bytes of samples.
pub open spec fn encode_of(samples: Seq<u32>) -> Seq<u8>
    decreases samples.len(),
{
    if samples.len() == 0 {
        Seq::empty()
    } else {
        encode_of(samples.drop_last()) + le_i16_of(quantize_of(samples.last()))
    }
}

/// Samples take two bytes each.
pub proof fn encode_len(samples: Seq<u32>)
    ensures
        encode_of(samples).len() == 2 * samples.len(),
    decreases samples.len(),
{
    if samples.len() > 0 {
        encode_len(samples.drop_last());
    }
}

/// A player gets every sample, in its order: two bytes each, the least significant
/// first, a negative number as its complement.
pub proof fn samples_read_back(samples: Seq<u32>, i: int)
    requires
        0 <= i < samples.len(),
    ensures
        ({
            let lo = encode_of(samples)[2 * i] as int;
            let hi = encode_of(samples)[2 * i + 1] as int;
            let n = lo + 256 * hi;
            quantize_of(samples[i]) == if n >= 0x8000 {
                n - 0x1_0000
            } else {
                n
            }
        }),
    decreases samples.len(),
{
    let init = samples.drop_last();
    encode_len(init);
    if i < init.len() {
        samples_read_back(init, i);
        assert(encode_of(samples)[2 * i] == encode_of(init)[2 * i]);
        assert(encode_of(samples)[2 * i + 1] == encode_of(init)[2 * i + 1]);
    } else {
        let q = quantize_of(samples.last());
        quantize_in_range(samples.last());
        assert(encode_of(samples)[2 * i] == le_i16_of(q)[0]);
        assert(encode_of(samples)[2 * i + 1] == le_i16_of(q)[1]);
    }
}

/// A sample and the same one below zero are as far from zero, silence is nought,
/// and what is as loud as can be, or louder, is the greatest number.
pub proof fn samples_keep_their_sign(bits: u32)
    requires
        bits < 0x8000_0000,
    ensures
        quantize_of((bits + 0x8000_0000) as u32) == -quantize_of(bits),
        quantize_of(bits) >= 0,
        0x3F80_0000 <= bits <= 0x7F80_0000 ==> quantize_of(bits) == 32767,
        bits > 0x7F80_0000 || bits == 0 ==> quantize_of(bits) == 0,
{
    quantize_in_range(bits);
    if 0x0080_0000 <= bits < 0x3F80_0000 {
        let k = (150 - bits / 0x0080_0000) as nat;
        power2::lemma_pow2_pos(k);
        let significand = 0x0080_0000 + bits % 0x0080_0000;
        let product = float::round_of((significand * 32767) as nat, 24);
        vstd::arithmetic::div_mod::lemma_div_pos_is_pos(product as int, power2::pow2(k) as int);
    }
}

/// What a recording holds so far.
pub struct WavRecorder {
    pub data_bytes: u32,
}

/// How many bytes a recording holds once `len` more were written: as many as can
/// be counted.
pub open spec fn written_of(data_bytes: int, len: int) -> int {
    if data_bytes + (len % 0x1_0000_0000) > u32::MAX {
        u32::MAX as int
    } else {
        data_bytes + (len % 0x1_0000_0000)
    }
}

/// What is written in two pieces counts as what is written at once, as far as it
/// can be counted, and the count never falls.
pub proof fn pieces_add_up(data_bytes: int, a: int, b: int)
    requires
        0 <= data_bytes <= u32::MAX,
        0 <= a,
        0 <= b,
        a + b <= u32::MAX,
    ensures
        written_of(written_of(data_bytes, a), b) == written_of(data_bytes, a + b),
        data_bytes <= written_of(data_bytes, a) <= u32::MAX,
        data_bytes + a <= u32::MAX ==> written_of(data_bytes, a) == data_bytes + a,
{
}

impl WavRecorder {
    /// A recording that holds nothing yet.
    pub fn create() -> (r: WavRecorder)
        ensures
            r.data_bytes == 0,
    {
        WavRecorder { data_bytes: 0 }
    }

    /// The header of a recording.
    pub fn header(rate: u32, data_bytes: u32) -> (r: Vec<u8>)
        requires
            rate * 2 <= u32::MAX,
            RIFF_EXTRA + data_bytes <= u32::MAX,
        ensures
            r@ == header_of(rate, data_bytes),
    {
        proof {
            reveal_strlit("RIFF");
            reveal_strlit("WAVE");
            reveal_strlit("fmt ");
            reveal_strlit("data");
        }
        let mut h: Vec<u8> = Vec::new();
        push_ascii(&mut h, "RIFF");
        assert(h@ =~= bytes::ascii_of("RIFF"@));
        push_le32(&mut h, RIFF_EXTRA + data_bytes);
        push_ascii(&mut h, "WAVE");
        push_ascii(&mut h, "fmt ");
        push_le32(&mut h, 16);
        push_le16(&mut h, 1);
        push_le16(&mut h, 1);
        push_le32(&mut h, rate);
        push_le32(&mut h, rate * 2);
        push_le16(&mut h, 2);
        push_le16(&mut h, 16);
        push_ascii(&mut h, "data");
        push_le32(&mut h, data_bytes);
        h
    }

    /// The bytes of samples, each given by the bits of its `f32`.
    pub fn encode(samples: &[u32]) -> (r: Vec<u8>)
        ensures
            r@ == encode_of(samples@),
    {
        let mut out: Vec<u8> = Vec::new();
        let mut i: usize = 0;
        assert(samples@.take(0) =~= Seq::empty());
        while i < samples.len()
            invariant
                i <= samples@.len(),
                out@ == encode_of(samples@.take(i as int)),
            decreases samples.len() - i,
        {
            assert(samples@.take(i + 1).drop_last() =~= samples@.take(i as int));
            let q: i16 = quantize(samples[i]);
            let n: u16 = if q < 0 {
                (q as i32 + 0x1_0000) as u16
            } else {
                q as u16
            };
            push_le16(&mut out, n);
            i = i + 1;
        }
        assert(samples@.take(samples@.len() as int) =~= samples@);
        out
    }

    /// So many bytes were written.
    pub fn written(&mut self, len: usize)
        ensures
            final(self).data_bytes == written_of(old(self).data_bytes as int, len as int),
    {
        let n: u64 = self.data_bytes as u64 + (len as u64 % 0x1_0000_0000);
        self.data_bytes = if n > 0xffff_ffff {
            u32::MAX
        } else {
            n as u32
        };
    }

    /// The sizes that are put into the header at the end, each with its place.
    pub fn finalize(&self) -> (r: ((u64, Vec<u8>), (u64, Vec<u8>)))
        requires
            RIFF_EXTRA + self.data_bytes <= u32::MAX,
        ensures
            r.0.0 == 4 && r.0.1@ == bytes::le32_of((RIFF_EXTRA + self.data_bytes) as u32),
            r.1.0 == 40 && r.1.1@ == bytes::le32_of(self.data_bytes),
    {
        let mut riff: Vec<u8> = Vec::new();
        push_le32(&mut riff, RIFF_EXTRA + self.data_bytes);
        let mut data: Vec<u8> = Vec::new();
        push_le32(&mut data, self.data_bytes);
        assert(riff@ =~= bytes::le32_of((RIFF_EXTRA + self.data_bytes) as u32));
        assert(data@ =~= bytes::le32_of(self.data_bytes));
        ((4, riff), (40, data))
    }
}

} // verus!
