//! Note-to-frequency conversion for sample playback.
//!
//! Converts a MIDI note number, a sample's C-4 rate and the output sample rate
//! into a 16.16 fixed-point increment for stepping through sample data.
use vstd::prelude::*;
use vstd::arithmetic::power2::pow2;

verus! {

/// The MIDI note number that plays a sample at its `c4_speed`.
pub const REFERENCE_NOTE: i16 = 48;

/// `round(2^(n/12) * 65536)` for `n` in `0..12` (16.16 fixed point).
pub const SEMITONE_MUL: [u32; 12] = [
    65536, 69433, 73562, 77936, 82570, 87480, 92682, 98193, 104032, 110218, 116772, 123715,
];

/// The 16.16 multiplier of `n` semitones within one octave.
pub open spec fn semitone_mul(n: int) -> int {
    if n == 0 { 65536 } else if n == 1 { 69433 } else if n == 2 { 73562 } else if n == 3 { 77936 }
    else if n == 4 { 82570 } else if n == 5 { 87480 } else if n == 6 { 92682 } else if n == 7 { 98193 }
    else if n == 8 { 104032 } else if n == 9 { 110218 } else if n == 10 { 116772 } else { 123715 }
}

/// Floor division by 12.
pub open spec fn octaves_of(semitones: int) -> int {
    if semitones >= 0 { semitones / 12 } else { -((-semitones + 11) / 12) }
}

/// `base` shifted by `semitones` in 12-tone equal temperament: the in-octave
/// multiplier is applied in 16.16 fixed point, then whole octaves double
/// (truncated to 32 bits) or halve the result.
pub open spec fn shift_frequency_spec(base: int, semitones: int) -> int {
    let o = octaves_of(semitones);
    let f = base * semitone_mul(semitones - 12 * o) / 65536;
    if o >= 0 {
        (f * pow2(o as nat)) % 0x1_0000_0000
    } else {
        f / pow2((-o) as nat) as int
    }
}

/// The 16.16 increment for `note` played from a sample recorded at `c4_speed`
/// through an output running at `sample_rate`; 0 when either rate is 0.
pub open spec fn note_to_increment_spec(note: int, c4_speed: int, sample_rate: int) -> int {
    if sample_rate == 0 || c4_speed == 0 {
        0
    } else {
        (shift_frequency_spec(c4_speed, note - 48) * 65536 / sample_rate) % 0x1_0000_0000
    }
}

/// Compute the 16.16 fixed-point sample increment for a given note.
pub fn note_to_increment(note: u8, c4_speed: u32, sample_rate: u32) -> (r: u32)
    ensures
        r == note_to_increment_spec(note as int, c4_speed as int, sample_rate as int),
{
    if sample_rate == 0 || c4_speed == 0 {
        return 0;
    }
    let semitone_offset = note as i16 - REFERENCE_NOTE;
    let freq = shift_frequency(c4_speed, semitone_offset);
    proof {
        assert(freq as u64 * 65536 <= 0xffff_ffffu64 * 65536);
    }
    let wide = (freq as u64 * 65536) / sample_rate as u64;
    proof {
        assert(wide as u32 == wide % 0x1_0000_0000) by (bit_vector);
    }
    wide as u32
}

/// Shift a frequency by a number of semitones (positive = higher pitch).
fn shift_frequency(base_freq: u32, semitones: i16) -> (r: u32)
    requires
        -48 <= semitones <= 207,
    ensures
        r == shift_frequency_spec(base_freq as int, semitones as int),
{
    let octaves: i16 = if semitones >= 0 { semitones / 12 } else { -((-semitones + 11) / 12) };
    let remainder = (semitones - 12 * octaves) as usize;
    assert(0 <= remainder < 12);
    let mul = SEMITONE_MUL[remainder];
    assert(mul == semitone_mul(remainder as int));
    assert(base_freq as u64 * mul as u64 <= 0xffff_ffffu64 * 123715u64) by (nonlinear_arith)
        requires mul <= 123715;
    let scaled = base_freq as u64 * mul as u64;
    let freq = scaled >> 16;
    proof {
        vstd::bits::lemma_u64_shr_is_div(scaled, 16);
        vstd::arithmetic::power2::lemma2_to64();
        assert(freq < 0x2_0000_0000);
    }
    if octaves >= 0 {
        let k = octaves as u64;
        proof {
            vstd::arithmetic::power2::lemma2_to64();
            vstd::arithmetic::power2::lemma_pow2_strictly_increases(k as nat, 18);
            assert(freq * pow2(k as nat) <= 0x2_0000_0000 * 0x4_0000) by (nonlinear_arith)
                requires freq < 0x2_0000_0000, pow2(k as nat) < 0x4_0000;
            vstd::bits::lemma_u64_shl_is_mul(freq, k);
        }
        let shifted = freq << k;
        proof {
            assert(shifted as u32 == shifted % 0x1_0000_0000) by (bit_vector);
        }
        shifted as u32
    } else {
        let k = (-octaves) as u64;
        proof {
            vstd::bits::lemma_u64_shr_is_div(freq, k);
            vstd::arithmetic::power2::lemma_pow2_pos(k as nat);
            vstd::arithmetic::div_mod::lemma_div_is_ordered(freq as int, 0x2_0000_0000, pow2(k as nat) as int);
            vstd::arithmetic::power2::lemma2_to64();
        }
        let shifted = freq >> k;
        proof {
            assert(pow2(k as nat) >= 2) by {
                vstd::arithmetic::power2::lemma_pow2_strictly_increases(0, k as nat);
            }
            assert(shifted < 0x1_0000_0000) by (nonlinear_arith)
                requires shifted == freq as int / pow2(k as nat) as int, freq < 0x2_0000_0000, pow2(k as nat) >= 2;
        }
        shifted as u32
    }
}

/// One octave up doubles the shifted frequency, for non-negative shifts whose
/// result stays within 32 bits.
pub proof fn lemma_octave_doubles(base: int, semitones: int)
    requires
        0 <= base,
        0 <= semitones,
        2 * (base * semitone_mul(semitones - 12 * octaves_of(semitones)) / 65536) * pow2(octaves_of(semitones) as nat) < 0x1_0000_0000,
    ensures
        shift_frequency_spec(base, semitones + 12) == 2 * shift_frequency_spec(base, semitones),
{
    let o = octaves_of(semitones);
    assert(octaves_of(semitones + 12) == o + 1);
    assert(semitones + 12 - 12 * (o + 1) == semitones - 12 * o);
    let m = semitone_mul(semitones - 12 * o);
    assert(m > 0);
    let f = base * m / 65536;
    vstd::arithmetic::power2::lemma_pow2_unfold((o + 1) as nat);
    assert(pow2((o + 1) as nat) == 2 * pow2(o as nat));
    assert(f * pow2((o + 1) as nat) == 2 * (f * pow2(o as nat))) by (nonlinear_arith)
        requires pow2((o + 1) as nat) == 2 * pow2(o as nat);
    assert(base * m >= 0) by (nonlinear_arith) requires base >= 0, m > 0;
    assert(f >= 0);
    vstd::arithmetic::power2::lemma_pow2_pos(o as nat);
    assert(f * pow2(o as nat) >= 0) by (nonlinear_arith) requires f >= 0, pow2(o as nat) > 0;
    let x = f * pow2(o as nat);
    assert(2 * x == 2 * f * pow2(o as nat)) by (nonlinear_arith) requires x == f * pow2(o as nat);
    assert(2 * x < 0x1_0000_0000);
    assert(x % 0x1_0000_0000 == x);
    assert((2 * x) % 0x1_0000_0000 == 2 * x);
}

} // verus!
