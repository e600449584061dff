//! Sample-level audio math: decoding 16-bit little-endian capture buffers,
//! the silence gate, the 8-bit offset-binary TX encoding with its semicolon
//! escape, and the RX peak/level computation.
//!
//! Levels are kept in exact integer form. The RX input level is a fraction
//! with denominator 1280 (so `min(2.1 * peak / 128, 1)` is represented by the
//! numerator `min(21 * peak, 1280)`), and the TX output level is kept as the
//! raw sum of squared samples, from which a display layer may take the root.

use vstd::prelude::*;

verus! {

/// Buffer attributes for one audio stream, derived from its sample rate:
/// about a quarter second of maximum buffer, a 20 ms target fill, a 10 ms
/// prebuffer and fragment size, and a 5 ms minimum request, each in bytes.
pub struct BufferShape {
    /// Maximum bytes the server may buffer.
    pub maxlength: u32,
    /// Target fill level in bytes.
    pub tlength: u32,
    /// Bytes buffered before playback starts.
    pub prebuf: u32,
    /// Minimum bytes per transfer request.
    pub minreq: u32,
    /// Capture fragment size in bytes.
    pub fragsize: u32,
}

/// Derive the buffer attributes for a stream of the given sample rate and
/// bytes per sample.
pub fn create_buffer_attr(rate: u32, sample_size: u32) -> (attr: BufferShape)
    requires
        (rate as int) * (sample_size as int) <= u32::MAX,
    ensures
        attr.maxlength == (rate as int) / 4 * (sample_size as int),
        attr.tlength == (rate as int) / 50 * (sample_size as int),
        attr.prebuf == (rate as int) / 100 * (sample_size as int),
        attr.minreq == (rate as int) / 200 * (sample_size as int),
        attr.fragsize == (rate as int) / 100 * (sample_size as int),
{
    proof {
        let r = rate as int;
        let s = sample_size as int;
        assert(0 <= r / 4 <= r && 0 <= r / 50 <= r && 0 <= r / 100 <= r && 0 <= r / 200 <= r);
        assert(r / 4 * s <= r * s && r / 4 * s >= 0) by (nonlinear_arith)
            requires
                0 <= r / 4 <= r && s >= 0,
        ;
        assert(r / 50 * s <= r * s && r / 50 * s >= 0) by (nonlinear_arith)
            requires
                0 <= r / 50 <= r && s >= 0,
        ;
        assert(r / 100 * s <= r * s && r / 100 * s >= 0) by (nonlinear_arith)
            requires
                0 <= r / 100 <= r && s >= 0,
        ;
        assert(r / 200 * s <= r * s && r / 200 * s >= 0) by (nonlinear_arith)
            requires
                0 <= r / 200 <= r && s >= 0,
        ;
    }
    BufferShape {
        maxlength: (rate / 4) * sample_size,
        tlength: (rate / 50) * sample_size,
        prebuf: (rate / 100) * sample_size,
        minreq: (rate / 200) * sample_size,
        fragsize: (rate / 100) * sample_size,
    }
}

/// Value of the signed 16-bit sample stored little-endian as `lo`, `hi`.
pub open spec fn i16_le_value(lo: u8, hi: u8) -> int {
    let raw = (hi as int) * 256 + (lo as int);
    if raw >= 32768 {
        raw - 65536
    } else {
        raw
    }
}

/// Decode pairs of bytes into signed 16-bit samples, little-endian, filling
/// `output` in place as far as both buffers allow; extra output entries are
/// left untouched.
pub fn bytes_to_i16_le(bytes: &[u8], output: &mut Vec<i16>)
    ensures
        final(output)@.len() == old(output)@.len(),
        forall|i: int|
            0 <= i < final(output)@.len() && 2 * i + 1 < bytes@.len() ==> final(output)@[i]
                == i16_le_value(bytes@[2 * i], bytes@[2 * i + 1]),
        forall|i: int|
            0 <= i < final(output)@.len() && 2 * i + 1 >= bytes@.len() ==> final(output)@[i]
                == old(output)@[i],
{
    let mut i: usize = 0;
    while i < output.len() && i < bytes.len() / 2
        invariant
            output@.len() == old(output)@.len(),
            i <= output@.len(),
            2 * i <= bytes@.len(),
            forall|j: int|
                0 <= j < i ==> output@[j] == i16_le_value(bytes@[2 * j], bytes@[2 * j + 1]),
            forall|j: int| i <= j < output@.len() ==> output@[j] == old(output)@[j],
        decreases output@.len() - i,
    {
        let lo = bytes[2 * i];
        let hi = bytes[2 * i + 1];
        let raw: u16 = (hi as u16) * 256 + (lo as u16);
        let wide: i32 = raw as i32;
        let value: i32 = if wide >= 32768 {
            wide - 65536
        } else {
            wide
        };
        output.set(i, value as i16);
        i = i + 1;
    }
}

/// The samples a capture byte buffer encodes: two bytes each, little
/// endian; a trailing odd byte carries no sample.
pub open spec fn capture_samples(bytes: Seq<u8>) -> Seq<i16> {
    Seq::new((bytes.len() / 2) as nat, |i: int| i16_le_value(bytes[2 * i], bytes[2 * i + 1]) as i16)
}

/// Sum of squared sample values of a capture frame.
pub open spec fn sum_squares(s: Seq<i16>) -> int
    decreases s.len(),
{
    if s.len() == 0 {
        0
    } else {
        sum_squares(s.drop_last()) + (s.last() as int) * (s.last() as int)
    }
}

pub proof fn lemma_sum_squares_bounds(s: Seq<i16>)
    ensures
        0 <= sum_squares(s) <= s.len() * 0x4000_0000,
    decreases s.len(),
{
    if s.len() > 0 {
        lemma_sum_squares_bounds(s.drop_last());
        let l = s.last() as int;
        assert(l * l <= 0x4000_0000 && l * l >= 0) by (nonlinear_arith)
            requires
                -32768 <= l <= 32767,
        ;
        assert((s.len() - 1) * 0x4000_0000 + 0x4000_0000 == s.len() * 0x4000_0000)
            by (nonlinear_arith);
    }
}

/// Sum of squared samples, the exact quantity under the RMS level.
pub fn frame_energy(samples: &Vec<i16>) -> (e: u64)
    requires
        samples@.len() <= 0x1_0000_0000,
    ensures
        e == sum_squares(samples@),
{
    let mut e: u64 = 0;
    let mut i: usize = 0;
    proof {
        assert(samples@.take(0) =~= Seq::<i16>::empty());
    }
    while i < samples.len()
        invariant
            i <= samples@.len(),
            samples@.len() <= 0x1_0000_0000,
            e == sum_squares(samples@.take(i as int)),
        decreases samples@.len() - i,
    {
        let s = samples[i];
        proof {
            let l = s as int;
            assert(l * l <= 0x4000_0000 && l * l >= 0) by (nonlinear_arith)
                requires
                    -32768 <= l <= 32767,
            ;
            lemma_sum_squares_bounds(samples@.take(i as int));
            assert(samples@.take(i as int).len() * 0x4000_0000 <= 0x1_0000_0000 * 0x4000_0000)
                by (nonlinear_arith)
                requires
                    samples@.take(i as int).len() <= 0x1_0000_0000,
            ;
            assert(samples@.take(i + 1).drop_last() =~= samples@.take(i as int));
            assert(samples@.take(i + 1).last() == samples@[i as int]);
        }
        let wide: i64 = (s as i64) * (s as i64);
        e = e + (wide as u64);
        i = i + 1;
    }
    proof {
        assert(samples@.take(samples@.len() as int) =~= samples@);
    }
    e
}

/// The silence gate: a frame is transmitted when its RMS amplitude, measured
/// against full scale 32768, is at least 1/20. Squaring both sides, that is
/// `sum_squares / (n * 32768^2) >= 1/400`.
pub open spec fn gate_open(sum_sq: int, n: int) -> bool {
    400 * sum_sq >= n * 0x4000_0000
}

/// Decide the silence gate exactly in integer arithmetic.
pub fn silence_gate_open(sum_sq: u64, n: u64) -> (open: bool)
    ensures
        open == gate_open(sum_sq as int, n as int),
{
    (400u128 * (sum_sq as u128)) >= ((n as u128) * 0x4000_0000u128)
}

/// A frame whose mean square sits exactly on the threshold is transmitted;
/// one strictly below it is suppressed.
pub proof fn lemma_gate_boundary(sum_sq: int, n: int)
    ensures
        400 * sum_sq == n * 0x4000_0000 ==> gate_open(sum_sq, n),
        400 * sum_sq < n * 0x4000_0000 ==> !gate_open(sum_sq, n),
{
}

/// Truncating division by 256, as the hardware-facing scaling performs it.
pub open spec fn div256_trunc(s: int) -> int {
    if s >= 0 {
        s / 256
    } else {
        -((-s) / 256)
    }
}

/// 8-bit offset-binary encoding of a signed 16-bit sample: scale down to
/// 8 bits and re-center on 128.
pub open spec fn encode_sample(s: int) -> int {
    128 + div256_trunc(s)
}

pub proof fn lemma_encode_sample_in_range(s: int)
    requires
        -32768 <= s <= 32767,
    ensures
        0 <= encode_sample(s) <= 255,
{
}

/// The semicolon escape: the frame terminator byte is replaced by a colon,
/// one quantum below, so that it can never appear in a TX payload.
pub open spec fn escape_byte(b: u8) -> u8 {
    if b == 59 {
        58
    } else {
        b
    }
}

/// The byte actually sent for a TX sample: offset-binary, then escaped.
pub open spec fn tx_byte(s: i16) -> u8 {
    escape_byte(encode_sample(s as int) as u8)
}

/// Encode one sample to its offset-binary byte, before escaping.
fn encode_sample_u8(s: i16) -> (b: u8)
    ensures
        b as int == encode_sample(s as int),
{
    proof {
        lemma_encode_sample_in_range(s as int);
    }
    if s >= 0 {
        let q: u16 = (s as u16) / 256;
        (128 + q) as u8
    } else {
        let m: u32 = (-(s as i32)) as u32;
        let q: u32 = m / 256;
        (128 - q as u32) as u8
    }
}

/// Encode a whole capture frame for transmission: every sample becomes one
/// escaped offset-binary byte, and no output byte is the frame terminator.
pub fn encode_tx_frame(samples: &Vec<i16>) -> (frame: Vec<u8>)
    ensures
        frame@.len() == samples@.len(),
        forall|i: int| 0 <= i < frame@.len() ==> frame@[i] == tx_byte(samples@[i]),
        forall|i: int| 0 <= i < frame@.len() ==> frame@[i] != 59,
{
    let mut frame: Vec<u8> = Vec::new();
    let mut i: usize = 0;
    while i < samples.len()
        invariant
            i <= samples@.len(),
            frame@.len() == i,
            forall|j: int| 0 <= j < i ==> frame@[j] == tx_byte(samples@[j]),
            forall|j: int| 0 <= j < i ==> frame@[j] != 59,
        decreases samples@.len() - i,
    {
        let raw = encode_sample_u8(samples[i]);
        let b: u8 = if raw == 59 {
            58
        } else {
            raw
        };
        frame.push(b);
        i = i + 1;
    }
    frame
}

/// Decoding an RX payload byte and re-encoding the resulting sample gives the
/// byte back: the inbound byte `b` stands for the sample `(b - 128) * 256`
/// (the 16-bit sample whose normalized value is `(b - 128) / 128`), and
/// offset-binary encoding of that sample is `b` again.
pub proof fn lemma_rx_tx_roundtrip(b: u8)
    ensures
        encode_sample((b as int - 128) * 256) == b as int,
{
    let off = b as int - 128;
    if off >= 0 {
        assert((off * 256) / 256 == off) by (nonlinear_arith);
    } else {
        assert(((-off) * 256) / 256 == -off) by (nonlinear_arith);
        assert(-(off * 256) == (-off) * 256) by (nonlinear_arith);
    }
}

/// Distance of an RX payload byte from the offset-binary midpoint 128,
/// the numerator (over 128) of its normalized magnitude.
pub open spec fn byte_mag(b: u8) -> int {
    if b >= 128 {
        b - 128
    } else {
        128 - b
    }
}

/// Peak magnitude over an RX payload frame.
pub open spec fn peak_mag(s: Seq<u8>) -> int
    decreases s.len(),
{
    if s.len() == 0 {
        0
    } else {
        let rest = peak_mag(s.drop_last());
        let m = byte_mag(s.last());
        if m > rest {
            m
        } else {
            rest
        }
    }
}

pub proof fn lemma_peak_mag_bounds(s: Seq<u8>)
    ensures
        0 <= peak_mag(s) <= 128,
    decreases s.len(),
{
    if s.len() > 0 {
        lemma_peak_mag_bounds(s.drop_last());
    }
}

/// The RX input level shown to level meters, as the numerator of a fraction
/// over 1280: `min(2.1 * (peak / 128), 1)` is exactly `min(21 * peak, 1280)
/// / 1280`.
pub open spec fn input_level_x1280(s: Seq<u8>) -> int {
    let v = 21 * peak_mag(s);
    if v > 1280 {
        1280
    } else {
        v
    }
}

/// Compute the peak magnitude of an RX payload frame.
pub fn frame_peak(frame: &Vec<u8>) -> (p: u8)
    ensures
        p as int == peak_mag(frame@),
{
    let mut p: u8 = 0;
    let mut i: usize = 0;
    proof {
        assert(frame@.take(0) =~= Seq::<u8>::empty());
    }
    while i < frame.len()
        invariant
            i <= frame@.len(),
            p as int == peak_mag(frame@.take(i as int)),
        decreases frame@.len() - i,
    {
        let b = frame[i];
        let m: u8 = if b >= 128 {
            b - 128
        } else {
            128 - b
        };
        proof {
            assert(frame@.take(i + 1).drop_last() =~= frame@.take(i as int));
            assert(frame@.take(i + 1).last() == frame@[i as int]);
        }
        if m > p {
            p = m;
        }
        i = i + 1;
    }
    proof {
        assert(frame@.take(frame@.len() as int) =~= frame@);
    }
    p
}

/// Compute the scaled RX input level of a payload frame.
pub fn frame_input_level(frame: &Vec<u8>) -> (level: u16)
    ensures
        level as int == input_level_x1280(frame@),
{
    let p = frame_peak(frame);
    let v: u16 = 21 * (p as u16);
    if v > 1280 {
        1280
    } else {
        v
    }
}

/// Center an RX payload byte on zero: the numerator (over 128) of the
/// normalized sample value `(b - 128) / 128` that a playback layer realizes.
pub fn frame_offsets(frame: &Vec<u8>) -> (offs: Vec<i16>)
    ensures
        offs@.len() == frame@.len(),
        forall|i: int| 0 <= i < offs@.len() ==> offs@[i] as int == frame@[i] - 128,
{
    let mut offs: Vec<i16> = Vec::new();
    let mut i: usize = 0;
    while i < frame.len()
        invariant
            i <= frame@.len(),
            offs@.len() == i,
            forall|j: int| 0 <= j < i ==> offs@[j] as int == frame@[j] - 128,
        decreases frame@.len() - i,
    {
        offs.push((frame[i] as i16) - 128);
        i = i + 1;
    }
    offs
}

} // verus!
