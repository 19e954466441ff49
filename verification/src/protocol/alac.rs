//! Verbatim ALAC frames.

use crate::bytes;
use vstd::arithmetic::power2;
use vstd::prelude::*;

verus! {

/// The low `n` bits of `v`, most significant first.
pub open spec fn low_bits(v: nat, n: nat) -> Seq<bool>
    decreases n,
{
    if n == 0 {
        Seq::empty()
    } else {
        low_bits(v / 2, (n - 1) as nat).push(v % 2 == 1)
    }
}

/// Bits packed into bytes, most significant first; a last byte is filled up with zeros.
pub open spec fn packed(bits: Seq<bool>) -> Seq<u8> {
    Seq::new(((bits.len() + 7) / 8) as nat, |i: int| packed_byte(bits, i * 8, 8))
}

/// The byte of `n` bits from position `from` on.
pub open spec fn packed_byte(bits: Seq<bool>, from: int, n: nat) -> u8
    decreases n,
{
    if n == 0 {
        0
    } else {
        let rest = packed_byte(bits, from, (n - 1) as nat);
        let at = from + n - 1;
        ((rest as int * 2 + (if at < bits.len() && bits[at] {
            1int
        } else {
            0
        })) % 256) as u8
    }
}

proof fn lemma_low_bits_len(v: nat, n: nat)
    ensures
        low_bits(v, n).len() == n,
    decreases n,
{
    if n > 0 {
        lemma_low_bits_len(v / 2, (n - 1) as nat);
    }
}

/// Collects bits.
pub struct BitWriter {
    bits: Vec<bool>,
}

impl BitWriter {
    pub closed spec fn bits(&self) -> Seq<bool> {
        self.bits@
    }

    pub fn new() -> (r: Self)
        ensures
            r.bits() == Seq::<bool>::empty(),
    {
        BitWriter { bits: Vec::new() }
    }

    /// Writes a field of `nbits` bits, most significant bit first.
    pub fn write(&mut self, val: u32, nbits: u32)
        ensures
            final(self).bits() == old(self).bits() + low_bits(val as nat, nbits as nat),
    {
        let ghost start = self.bits@;
        let mut left: u32 = nbits;
        assert(self.bits@ =~= start + low_bits(high_part(val as nat, nbits as nat), 0));
        while left > 0
            invariant
                left <= nbits,
                self.bits@ == start + low_bits(
                    high_part(val as nat, left as nat),
                    (nbits - left) as nat,
                ),
            decreases left,
        {
            let ghost before = self.bits@;
            let bit: bool = is_set(val, left - 1);
            self.bits.push(bit);
            proof {
                let next = high_part(val as nat, (left - 1) as nat);
                lemma_high_part(val as nat, left as nat);
                assert(low_bits(next, (nbits - left + 1) as nat) == low_bits(
                    next / 2,
                    (nbits - left) as nat,
                ).push(next % 2 == 1));
                assert(self.bits@ =~= start + low_bits(next, (nbits - left + 1) as nat));
            }
            left = left - 1;
        }
        proof {
            power2::lemma2_to64();
            assert(high_part(val as nat, 0) == val);
        }
    }

    /// The bits as bytes.
    pub fn flush(self) -> (r: Vec<u8>)
        ensures
            r@ == packed(self.bits()),
    {
        let mut out: Vec<u8> = Vec::new();
        let count: usize = self.bits.len() / 8 + (if self.bits.len() % 8 > 0 {
            1
        } else {
            0
        });
        let mut i: usize = 0;
        while i < count
            invariant
                i <= count,
                count == (self.bits.len() + 7) / 8,
                out@ == packed(self.bits@).take(i as int),
            decreases count - i,
        {
            let from: usize = i * 8;
            let mut b: u8 = 0;
            let mut n: usize = 0;
            proof {
                power2::lemma2_to64();
            }
            while n < 8
                invariant
                    n <= 8,
                    from == i * 8,
                    i < count,
                    count == (self.bits@.len() + 7) / 8,
                    b == packed_byte(self.bits@, from as int, n as nat),
                    b < power2::pow2(n as nat),
                decreases 8 - n,
            {
                let bit: u8 = if n < self.bits.len() - from && self.bits[from + n] {
                    1
                } else {
                    0
                };
                proof {
                    power2::lemma_pow2_unfold((n + 1) as nat);
                    power2::lemma2_to64();
                    if n < 7 {
                        power2::lemma_pow2_strictly_increases(n as nat, 7);
                    }
                }
                b = b * 2 + bit;
                n += 1;
            }
            out.push(b);
            i += 1;
            assert(out@ =~= packed(self.bits@).take(i as int));
        }
        assert(out@ =~= packed(self.bits@));
        out
    }
}

/// `v` without its low `n` bits.
pub open spec fn high_part(v: nat, n: nat) -> nat {
    v / power2::pow2(n)
}

proof fn lemma_high_part(v: nat, n: nat)
    requires
        n > 0,
    ensures
        high_part(v, (n - 1) as nat) / 2 == high_part(v, n),
{
    let p = power2::pow2((n - 1) as nat);
    power2::lemma_pow2_pos((n - 1) as nat);
    power2::lemma_pow2_unfold(n);
    vstd::arithmetic::div_mod::lemma_div_denominator(v as int, p as int, 2);
}

/// Whether bit `n` of `v` is set.
fn is_set(v: u32, n: u32) -> (r: bool)
    ensures
        r == (high_part(v as nat, n as nat) % 2 == 1),
{
    let mut rest: u32 = v;
    let mut i: u32 = 0;
    proof {
        power2::lemma2_to64();
    }
    while i < n && rest > 0
        invariant
            i <= n,
            rest == high_part(v as nat, i as nat),
        decreases n - i,
    {
        proof {
            lemma_high_part(v as nat, (i + 1) as nat);
        }
        rest = rest / 2;
        i += 1;
    }
    if i < n {
        proof {
            power2::lemma_pow2_pos(i as nat);
            power2::lemma_pow2_pos(n as nat);
            power2::lemma_pow2_strictly_increases(i as nat, n as nat);
            let (p, q) = (power2::pow2(i as nat) as int, power2::pow2(n as nat) as int);
            vstd::arithmetic::div_mod::lemma_fundamental_div_mod(v as int, p);
            vstd::arithmetic::div_mod::lemma_mod_bound(v as int, p);
            assert(p * (v as int / p) == 0) by (nonlinear_arith)
                requires
                    v as int / p == 0,
            ;
            vstd::arithmetic::div_mod::lemma_basic_div(v as int, q);
        }
        return false;
    }
    rest % 2 == 1
}

/// Sample `i` of little-endian 16-bit samples; zero behind their end.
pub open spec fn sample_at(pcm: Seq<u8>, i: int) -> nat {
    if i * 2 + 1 < pcm.len() {
        pcm[i * 2] as nat + pcm[i * 2 + 1] as nat * 256
    } else {
        0
    }
}

/// Bits with a field of `n` bits behind them, most significant bit first.
pub open spec fn with_field(bits: Seq<bool>, v: nat, n: nat) -> Seq<bool> {
    bits + low_bits(v, n)
}

/// The header of a verbatim frame.
pub open spec fn frame_header(frame_size: nat, channels: nat) -> Seq<bool> {
    let tag: nat = if channels == 2 {
        1
    } else {
        0
    };
    with_field(
        with_field(
            with_field(
                with_field(
                    with_field(
                        with_field(with_field(Seq::empty(), tag, 3), 0, 4),
                        0,
                        12,
                    ),
                    1,
                    1,
                ),
                0,
                2,
            ),
            1,
            1,
        ),
        frame_size % 0x1_0000_0000,
        32,
    )
}

/// The header and the first `n` samples of a verbatim frame.
pub open spec fn frame_samples(
    pcm: Seq<u8>,
    frame_size: nat,
    channels: nat,
    bit_depth: nat,
    n: nat,
) -> Seq<bool>
    decreases n,
{
    if n == 0 {
        frame_header(frame_size, channels)
    } else {
        with_field(
            frame_samples(pcm, frame_size, channels, bit_depth, (n - 1) as nat),
            sample_at(pcm, n - 1),
            bit_depth,
        )
    }
}

/// A verbatim frame: header, samples, end mark.
pub open spec fn verbatim_frame(
    pcm: Seq<u8>,
    frame_size: nat,
    channels: nat,
    bit_depth: nat,
) -> Seq<u8> {
    packed(
        with_field(
            frame_samples(pcm, frame_size, channels, bit_depth, frame_size * channels),
            7,
            3,
        ),
    )
}

/// Encodes 16-bit samples as a verbatim frame.
pub fn encode_alac_verbatim(pcm: &[u8], frame_size: u16, channels: u8, bit_depth: u32) -> (r: Vec<
    u8,
>)
    ensures
        r@ == verbatim_frame(pcm@, frame_size as nat, channels as nat, bit_depth as nat),
{
    let mut bw = BitWriter::new();
    if channels == 2 {
        bw.write(1, 3);
    } else {
        bw.write(0, 3);
    }
    bw.write(0, 4);
    bw.write(0, 12);
    bw.write(1, 1);
    bw.write(0, 2);
    bw.write(1, 1);
    bw.write(frame_size as u32, 32);
    assert(bw.bits() == frame_header(frame_size as nat, channels as nat));
    proof {
        assert(0 <= frame_size * channels <= 65535 * 255) by (nonlinear_arith)
            requires
                0 <= frame_size <= 65535,
                0 <= channels <= 255,
        ;
    }
    let total: u32 = frame_size as u32 * channels as u32;
    let mut i: u32 = 0;
    while i < total
        invariant
            i <= total <= 65535 * 255,
            bw.bits() == frame_samples(
                pcm@,
                frame_size as nat,
                channels as nat,
                bit_depth as nat,
                i as nat,
            ),
        decreases total - i,
    {
        let off: usize = i as usize * 2;
        let sample: u32 = if pcm.len() > 1 && off < pcm.len() - 1 {
            pcm[off] as u32 + pcm[off + 1] as u32 * 256
        } else {
            0
        };
        bw.write(sample, bit_depth);
        i += 1;
    }
    bw.write(7, 3);
    bw.flush()
}

/// A verbatim frame of stereo silence with `spf` samples for each channel.
pub fn encode_alac_verbatim_silence(spf: u16) -> (r: Vec<u8>)
    ensures
        r@ == verbatim_frame(bytes::zeros(spf as nat * 4), spf as nat, 2, 16),
{
    let pcm = bytes::zero_vec(spf as usize * 4);
    encode_alac_verbatim(&pcm, spf, 2, 16)
}

proof fn lemma_frame_samples_len(
    pcm: Seq<u8>,
    frame_size: nat,
    channels: nat,
    bit_depth: nat,
    n: nat,
)
    ensures
        frame_samples(pcm, frame_size, channels, bit_depth, n).len() == 55 + n * bit_depth,
    decreases n,
{
    if n == 0 {
        let tag: nat = if channels == 2 {
            1
        } else {
            0
        };
        lemma_low_bits_len(tag, 3);
        lemma_low_bits_len(0, 4);
        lemma_low_bits_len(0, 12);
        lemma_low_bits_len(1, 1);
        lemma_low_bits_len(0, 2);
        lemma_low_bits_len(1, 1);
        lemma_low_bits_len(frame_size % 0x1_0000_0000, 32);
        assert(0 * bit_depth == 0);
    } else {
        let m = (n - 1) as nat;
        lemma_frame_samples_len(pcm, frame_size, channels, bit_depth, m);
        lemma_low_bits_len(sample_at(pcm, n - 1), bit_depth);
        assert(n * bit_depth == m * bit_depth + bit_depth) by (nonlinear_arith)
            requires
                n == m + 1,
        ;
    }
}

/// A verbatim frame has 58 bits besides its samples, filled up to whole bytes.
pub proof fn law_frame_length(pcm: Seq<u8>, frame_size: nat, channels: nat, bit_depth: nat)
    ensures
        verbatim_frame(pcm, frame_size, channels, bit_depth).len() == (58 + frame_size * channels
            * bit_depth + 7) / 8,
{
    let n = frame_size * channels;
    lemma_frame_samples_len(pcm, frame_size, channels, bit_depth, n);
    let body = frame_samples(pcm, frame_size, channels, bit_depth, n);
    lemma_low_bits_len(7, 3);
}

/// The number that bits spell, most significant first.
pub open spec fn bits_value(bits: Seq<bool>) -> nat
    decreases bits.len(),
{
    if bits.len() == 0 {
        0
    } else {
        bits_value(bits.drop_last()) * 2 + (if bits.last() {
            1nat
        } else {
            0
        })
    }
}

/// A field that has room for its value reads back as that value.
pub proof fn law_field_reads_back(v: nat, n: nat)
    requires
        v < power2::pow2(n),
    ensures
        bits_value(low_bits(v, n)) == v,
    decreases n,
{
    if n == 0 {
        power2::lemma2_to64();
    } else {
        power2::lemma_pow2_unfold(n);
        law_field_reads_back(v / 2, (n - 1) as nat);
        assert(low_bits(v, n).drop_last() =~= low_bits(v / 2, (n - 1) as nat));
    }
}

/// The header of a frame gives the samples of each channel in its last 32 bits.
pub proof fn law_header_gives_samples(frame_size: nat, channels: nat)
    requires
        frame_size < 0x1_0000_0000,
    ensures
        frame_header(frame_size, channels).len() == 55,
        bits_value(frame_header(frame_size, channels).subrange(23, 55)) == frame_size,
{
    lemma_frame_samples_len(Seq::empty(), frame_size, channels, 0, 0);
    lemma_low_bits_len(frame_size, 32);
    assert(frame_header(frame_size, channels).subrange(23, 55) =~= low_bits(frame_size, 32));
    power2::lemma2_to64();
    law_field_reads_back(frame_size, 32);
}

/// Bits are packed eight to a byte, the first one on top, and what is missing in the last byte is
/// zero.
pub proof fn law_bits_are_packed(bits: Seq<bool>, i: int)
    requires
        0 <= i < (bits.len() + 7) / 8 * 8,
    ensures
        packed(bits).len() == (bits.len() + 7) / 8,
        (packed(bits)[i / 8] as int / power2::pow2((7 - i % 8) as nat) as int % 2 == 1) <==> i
            < bits.len() && bits[i],
{
    let from = i / 8 * 8;
    assert(packed(bits)[i / 8] == packed_byte(bits, from, 8));
    lemma_packed_bit(bits, from, 8, i % 8);
    assert(from + i % 8 == i);
}

proof fn lemma_packed_bit(bits: Seq<bool>, from: int, n: nat, k: int)
    requires
        0 <= k < n <= 8,
        0 <= from,
    ensures
        packed_byte(bits, from, n) < power2::pow2(n),
        (packed_byte(bits, from, n) as int / power2::pow2((n - 1 - k) as nat) as int % 2 == 1) <==> (
        from + k < bits.len() && bits[from + k]),
    decreases n,
{
    power2::lemma2_to64();
    let m = (n - 1) as nat;
    let rest = packed_byte(bits, from, m) as int;
    let b: int = if from + n - 1 < bits.len() && bits[from + n - 1] {
        1
    } else {
        0
    };
    power2::lemma_pow2_unfold(n);
    if m > 0 {
        lemma_packed_bit(
            bits,
            from,
            m,
            if k < m {
                k
            } else {
                0
            },
        );
        if m < 8 {
            power2::lemma_pow2_strictly_increases(m, 8);
        }
    }
    assert(rest < power2::pow2(m));
    if n < 8 {
        power2::lemma_pow2_strictly_increases(n, 8);
    }
    let v = packed_byte(bits, from, n) as int;
    assert(v == rest * 2 + b);
    if k < m {
        let g = power2::pow2((m - 1 - k) as nat) as int;
        power2::lemma_pow2_pos((m - 1 - k) as nat);
        power2::lemma_pow2_unfold((n - 1 - k) as nat);
        assert(v / 2 == rest);
        vstd::arithmetic::div_mod::lemma_div_denominator(v, 2, g);
        assert(2 * g == power2::pow2((n - 1 - k) as nat));
    } else {
        assert(v / 1 == v);
        assert(v % 2 == b);
    }
}

/// Behind the header the samples stand one after the other, each in as many bits as it has, and
/// read back as they were; three set bits end the frame.
pub proof fn law_samples_read_back(
    pcm: Seq<u8>,
    frame_size: nat,
    channels: nat,
    n: nat,
    i: int,
)
    requires
        0 <= i < n,
    ensures
        ({
            let all = frame_samples(pcm, frame_size, channels, 16, n);
            &&& all.len() == 55 + 16 * n
            &&& all.take(55) == frame_header(frame_size, channels)
            &&& 2 * i + 1 < pcm.len() ==> bits_value(all.subrange(55 + 16 * i, 55 + 16 * i + 16))
                == pcm[2 * i] + 256 * pcm[2 * i + 1]
            &&& 2 * i + 1 >= pcm.len() ==> bits_value(all.subrange(55 + 16 * i, 55 + 16 * i + 16))
                == 0
        }),
    decreases n,
{
    power2::lemma2_to64();
    lemma_frame_samples_len(pcm, frame_size, channels, 16, n);
    lemma_frame_samples_len(pcm, frame_size, channels, 16, (n - 1) as nat);
    let all = frame_samples(pcm, frame_size, channels, 16, n);
    let before = frame_samples(pcm, frame_size, channels, 16, (n - 1) as nat);
    let field = low_bits(sample_at(pcm, n - 1), 16);
    lemma_low_bits_len(sample_at(pcm, n - 1), 16);
    assert(all =~= before + field);
    if i == n - 1 {
        assert(all.subrange(55 + 16 * i, 55 + 16 * i + 16) =~= field);
        law_field_reads_back(sample_at(pcm, i), 16);
        if n > 1 {
            law_samples_read_back(pcm, frame_size, channels, (n - 1) as nat, 0);
            assert(all.take(55) =~= before.take(55));
        } else {
            assert(all.take(55) =~= before);
        }
    } else {
        law_samples_read_back(pcm, frame_size, channels, (n - 1) as nat, i);
        assert(all.take(55) =~= before.take(55));
        assert(all.subrange(55 + 16 * i, 55 + 16 * i + 16) =~= before.subrange(
            55 + 16 * i,
            55 + 16 * i + 16,
        ));
    }
}
/// The fields of a header: the kind of element, one for two channels and zero for one; that the
/// frame tells its size; and that its samples are not compressed. All others are zero.
pub proof fn law_header_fields(frame_size: nat, channels: nat)
    ensures
        ({
            let h = frame_header(frame_size, channels);
            &&& h.len() == 55
            &&& bits_value(h.take(3)) == if channels == 2 { 1nat } else { 0 }
            &&& forall|i: int| 3 <= i < 19 ==> !#[trigger] h[i]
            &&& h[19]
            &&& !h[20] && !h[21]
            &&& h[22]
        }),
{
    let tag: nat = if channels == 2 {
        1
    } else {
        0
    };
    power2::lemma2_to64();
    lemma_low_bits_len(tag, 3);
    lemma_low_bits_len(0, 4);
    lemma_low_bits_len(0, 12);
    lemma_low_bits_len(1, 1);
    lemma_low_bits_len(0, 2);
    lemma_low_bits_len(frame_size % 0x1_0000_0000, 32);
    lemma_zero_bits(4);
    lemma_zero_bits(12);
    lemma_zero_bits(2);
    let h = frame_header(frame_size, channels);
    law_field_reads_back(tag, 3);
    assert(h.take(3) =~= low_bits(tag, 3));
    assert(low_bits(1, 1)[0]) by {
        reveal_with_fuel(low_bits, 2);
    }
    assert forall|i: int| 3 <= i < 19 implies !#[trigger] h[i] by {
        if i < 7 {
            assert(h[i] == low_bits(0, 4)[i - 3]);
        } else {
            assert(h[i] == low_bits(0, 12)[i - 7]);
        }
    }
    assert(h[19] == low_bits(1, 1)[0]);
    assert(h[20] == low_bits(0, 2)[0] && h[21] == low_bits(0, 2)[1]);
    assert(h[22] == low_bits(1, 1)[0]);
}

proof fn lemma_zero_bits(n: nat)
    ensures
        forall|i: int| 0 <= i < n ==> !#[trigger] low_bits(0, n)[i],
    decreases n,
{
    if n > 0 {
        lemma_zero_bits((n - 1) as nat);
        lemma_low_bits_len(0, (n - 1) as nat);
    }
}

/// A frame is the header, all samples and three set bits, packed into bytes.
pub proof fn law_frame_is_packed(pcm: Seq<u8>, frame_size: nat, channels: nat, bit_depth: nat)
    ensures
        verbatim_frame(pcm, frame_size, channels, bit_depth) == packed(
            frame_samples(pcm, frame_size, channels, bit_depth, frame_size * channels) + seq![
                true,
                true,
                true,
            ],
        ),
{
    reveal_with_fuel(low_bits, 4);
    assert(low_bits(7, 3) =~= seq![true, true, true]);
}
} // verus!
