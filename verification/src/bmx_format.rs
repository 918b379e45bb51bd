//! Buzz BMX format parser.
//!
//! Parses BMX (Buzz Machine eXtended) song files: a directory of sections
//! describing machines, their wiring, patterns, sequences and waves.
use vstd::prelude::*;
use crate::effect_parser::{effect_spec, hi_nibble, lo_nibble, parse_effect};
use crate::effects::VolumeCommand;
use crate::format_error::FormatError;
use crate::names::text_eq;
use crate::pattern::{Cell, Note, Pattern};
use crate::event::NodeId;
use crate::graph::{AudioGraph, Connection, NodeType, Parameter};
use crate::musical_time::{add_rows_spec, can_add_sub_beats, sub_per_row, MusicalTime};
use crate::sample::{LoopType, Sample, SampleData};
use crate::song::{amiga_pan, default_settings, ChannelSettings, Clip, SeqEntry, SeqTermination, Song, Track};
use crate::instrument::Instrument;
use crate::names::{fitted, name26_bytes, name32_bytes};
use vstd::string::StringSliceAdditionalSpecFns;
use vstd::string::StringExecFns;
use vstd::arithmetic::power2::{lemma_pow2_adds, lemma_pow2_unfold, pow2};
use crate::mod_format::{first_nul_from, lemma_index_injective, slice_range};
use crate::names::{lossy_text, text_from_utf8_lossy};
use crate::wav_format::{le16_at, le32_at};

verus! {

// ---------------------------------------------------------------------------
// Machine names
// ---------------------------------------------------------------------------

/// DLL names of tracker machines (cell-based).
pub open spec fn is_tracker_dll_spec(dll: Seq<char>) -> bool {
    dll == "Jeskola Tracker"@ || dll == "Matilde Tracker"@ || dll == "Matilde Tracker 2"@
}

/// Returns true for DLL names that are tracker machines (cell-based).
pub fn is_tracker_dll(dll: &str) -> (r: bool)
    ensures
        r == is_tracker_dll_spec(dll@),
{
    text_eq(dll, "Jeskola Tracker") || text_eq(dll, "Matilde Tracker") || text_eq(dll, "Matilde Tracker 2")
}

/// Byte sizes of the global and per-track parameters of known Buzz
/// machines, used when a file has no parameter section.
pub open spec fn known_sizes_spec(dll: Seq<char>) -> Option<(usize, usize)> {
    if dll == "Jeskola Tracker"@ { Some((1, 5)) }
    else if dll == "Matilde Tracker"@ { Some((1, 5)) }
    else if dll == "Matilde Tracker 2"@ { Some((4, 7)) }
    else if dll == "Geonik's Compressor"@ { Some((7, 0)) }
    else if dll == "Geonik's Overdrive 2"@ { Some((5, 0)) }
    else if dll == "Jeskola Reverb 2"@ { Some((10, 0)) }
    else if dll == "Jeskola Filter 2"@ { Some((3, 0)) }
    else if dll == "Jeskola Delay"@ { Some((6, 0)) }
    else if dll == "Jeskola Racer"@ { Some((3, 0)) }
    else if dll == "Jeskola Mixer"@ { Some((1, 0)) }
    else if dll == "Jeskola Noise"@ { Some((2, 0)) }
    else if dll == "Jeskola Kick XP"@ { Some((9, 0)) }
    else { None }
}

/// Byte sizes for known Buzz machines: (global_bytes, track_bytes).
pub fn known_machine_byte_sizes(dll_name: &str) -> (r: Option<(usize, usize)>)
    ensures
        r == known_sizes_spec(dll_name@),
{
    if text_eq(dll_name, "Jeskola Tracker") { Some((1, 5)) }
    else if text_eq(dll_name, "Matilde Tracker") { Some((1, 5)) }
    else if text_eq(dll_name, "Matilde Tracker 2") { Some((4, 7)) }
    else if text_eq(dll_name, "Geonik's Compressor") { Some((7, 0)) }
    else if text_eq(dll_name, "Geonik's Overdrive 2") { Some((5, 0)) }
    else if text_eq(dll_name, "Jeskola Reverb 2") { Some((10, 0)) }
    else if text_eq(dll_name, "Jeskola Filter 2") { Some((3, 0)) }
    else if text_eq(dll_name, "Jeskola Delay") { Some((6, 0)) }
    else if text_eq(dll_name, "Jeskola Racer") { Some((3, 0)) }
    else if text_eq(dll_name, "Jeskola Mixer") { Some((1, 0)) }
    else if text_eq(dll_name, "Jeskola Noise") { Some((2, 0)) }
    else if text_eq(dll_name, "Jeskola Kick XP") { Some((9, 0)) }
    else { None }
}

// ---------------------------------------------------------------------------
// Cell and value conversions
// ---------------------------------------------------------------------------

/// The note of a Buzz note byte: high nibble octave, low nibble note 1 (C)
/// to 12 (B); 0 is no note, 255 note off, other values no note.
pub open spec fn buzz_note_spec(buzz: u8) -> Note {
    if buzz == 0 {
        Note::Empty
    } else if buzz == 255 {
        Note::Off
    } else if 1 <= lo_nibble(buzz) <= 12 {
        Note::On((hi_nibble(buzz) * 12 + lo_nibble(buzz) - 1) as u8)
    } else {
        Note::Empty
    }
}

/// Convert a Buzz note byte to our Note type.
pub fn buzz_note_to_note(buzz: u8) -> (r: Note)
    ensures
        r == buzz_note_spec(buzz),
{
    if buzz == 0 {
        return Note::Empty;
    }
    if buzz == 255 {
        return Note::Off;
    }
    let octave = buzz >> 4;
    let semi = (buzz & 0x0F).wrapping_sub(1);
    assert(octave == buzz / 16) by (bit_vector) requires octave == buzz >> 4u8;
    assert((buzz & 0x0Fu8) == buzz % 16) by (bit_vector);
    if semi < 12 {
        Note::On(octave * 12 + semi)
    } else {
        Note::Empty
    }
}

/// The volume command of a Buzz volume byte: 0xFF is no change, otherwise
/// 0..0xFE scaled to 0..64 (rounded down).
pub open spec fn buzz_volume_spec(vol: u8) -> VolumeCommand {
    if vol == 0xFF { VolumeCommand::Empty } else { VolumeCommand::Volume((vol * 64 / 0xFE) as u8) }
}

/// Convert a Buzz volume byte (0-254) to VolumeCommand. 0xFF = no change.
pub fn buzz_volume_to_cmd(vol: u8) -> (r: VolumeCommand)
    ensures
        r == buzz_volume_spec(vol),
{
    if vol == 0xFF {
        VolumeCommand::Empty
    } else {
        VolumeCommand::Volume(((vol as u32) * 64 / 0xFE) as u8)
    }
}

/// Instrument number of a Buzz wave index: the number paired with it in
/// `lookup` (the first pair), 0 for wave 0 or an unknown wave.
pub open spec fn wave_instrument_spec(wave: u8, lookup: Seq<(u16, u8)>) -> u8
    decreases lookup.len(),
{
    if wave == 0 || lookup.len() == 0 {
        0
    } else if lookup[0].0 == wave as u16 {
        lookup[0].1
    } else {
        wave_instrument_spec(wave, lookup.drop_first())
    }
}

/// Look up instrument number from Buzz wave index. 0 = no instrument.
pub fn wave_to_instrument(wave: u8, lookup: &[(u16, u8)]) -> (r: u8)
    ensures
        r == wave_instrument_spec(wave, lookup@),
{
    if wave == 0 {
        return 0;
    }
    let mut i: usize = 0;
    assert(lookup@.skip(0) =~= lookup@);
    while i < lookup.len()
        invariant
            wave != 0,
            i <= lookup@.len(),
            wave_instrument_spec(wave, lookup@) == wave_instrument_spec(wave, lookup@.skip(i as int)),
        decreases lookup@.len() - i,
    {
        proof {
            assert(lookup@.skip(i as int).drop_first() =~= lookup@.skip(i + 1));
        }
        let (idx, inst) = lookup[i];
        if idx == wave as u16 {
            return inst;
        }
        i = i + 1;
    }
    0
}

/// Build a wave-index lookup: the i-th wave maps to instrument i + 1.
pub fn build_wave_lookup(wave_indices: &[u16]) -> (r: Vec<(u16, u8)>)
    ensures
        r@ == Seq::new(wave_indices@.len(), |i: int| (wave_indices@[i], (i + 1) as u8)),
{
    let mut lookup: Vec<(u16, u8)> = Vec::new();
    let mut i: usize = 0;
    while i < wave_indices.len()
        invariant
            i <= wave_indices@.len(),
            lookup@ =~= Seq::new(i as nat, |k: int| (wave_indices@[k], (k + 1) as u8)),
        decreases wave_indices@.len() - i,
    {
        lookup.push((wave_indices[i], #[verifier::truncate] ((i + 1) as u8)));
        i = i + 1;
    }
    lookup
}

/// The sequence event id of a raw event value: the loop flag (top bit of
/// the value's width) cleared.
pub open spec fn event_id_spec(raw: u32, bpe: u8) -> u32 {
    if bpe == 1 { raw % 0x80 } else if bpe == 2 { raw % 0x8000 } else if bpe == 4 { raw % 0x8000_0000 } else { raw }
}

/// Mask the loop flag out of a raw sequence event.
pub fn extract_event_id(raw: u32, bpe: u8) -> (r: u32)
    ensures
        r == event_id_spec(raw, bpe),
{
    if bpe == 1 {
        let r = raw & 0x7F;
        assert(r == raw % 0x80) by (bit_vector) requires r == raw & 0x7Fu32;
        r
    } else if bpe == 2 {
        let r = raw & 0x7FFF;
        assert(r == raw % 0x8000) by (bit_vector) requires r == raw & 0x7FFFu32;
        r
    } else if bpe == 4 {
        let r = raw & 0x7FFF_FFFF;
        assert(r == raw % 0x8000_0000) by (bit_vector) requires r == raw & 0x7FFF_FFFFu32;
        r
    } else {
        raw
    }
}

/// Gain in fixed-point dB of a Buzz amplitude (0x4000 = unity): the ratio
/// to unity, in hundredths, minus 100, rounded toward zero; silence for 0.
pub open spec fn amplitude_gain_spec(amp: u16) -> i16 {
    if amp == 0 {
        i16::MIN
    } else {
        let n = amp * 100 - 1638400;
        (if n >= 0 { n / 16384 } else { -((-n) / 16384) }) as i16
    }
}

/// Convert Buzz amplitude (0..0x4000) to gain in fixed-point dB.
///
/// The ratio `amp / 0x4000`, scaled by 100 and less 100, is a multiple of
/// 2^-14 whose numerator fits in 24 bits, so it is computed exactly in
/// integers and rounded toward zero.
pub fn amplitude_to_gain(amp: u16) -> (r: i16)
    ensures
        r == amplitude_gain_spec(amp),
{
    if amp == 0 {
        return i16::MIN;
    }
    let n: i32 = amp as i32 * 100 - 1638400;
    let q: i32 = if n >= 0 { n / 16384 } else { -((-n) / 16384) };
    q as i16
}

/// Zigzag decoding of a coded value: even values are positive, odd ones
/// negative; a magnitude beyond 16 bits saturates at the bound of its sign.
pub open spec fn decode_signed_spec(val: u32) -> i16 {
    if val % 2 == 0 {
        if val / 2 <= 32767 { (val / 2) as i16 } else { i16::MAX }
    } else {
        if (val + 1) / 2 <= 32768 { (0 - (val + 1) / 2) as i16 } else { i16::MIN }
    }
}

/// Decode a signed value from the variable-length unsigned encoding.
/// Uses zigzag decoding: even → positive, odd → negative.
pub fn decode_signed(val: u32) -> (r: i16)
    ensures
        r == decode_signed_spec(val),
        val % 2 == 0 ==> r >= 0,
        val % 2 == 1 ==> r < 0,
{
    assert(val >> 1u32 == val / 2) by (bit_vector);
    let h = val >> 1;
    if val & 1 == 0 {
        assert(val & 1 == 0 ==> val % 2 == 0) by (bit_vector);
        if h <= 32767 { h as i16 } else { i16::MAX }
    } else {
        assert(val & 1 != 0 ==> val % 2 == 1) by (bit_vector);
        let m = h + 1;
        if m <= 32768 { (0i32 - m as i32) as i16 } else { i16::MIN }
    }
}

/// The note of a Buzz root note byte (octave << 4 | semitone, 1-based);
/// C-4 (48) when the semitone is out of range.
pub open spec fn buzz_root_spec(root: u8) -> u8 {
    if 1 <= lo_nibble(root) <= 12 { (hi_nibble(root) * 12 + lo_nibble(root) - 1) as u8 } else { 48 }
}

/// Convert Buzz root_note byte to MIDI note number.
pub fn buzz_root_to_midi(root: u8) -> (r: u8)
    ensures
        r == buzz_root_spec(root),
{
    let octave = root >> 4;
    let semi = (root & 0x0F).wrapping_sub(1);
    assert(octave == root / 16) by (bit_vector) requires octave == root >> 4u8;
    assert((root & 0x0Fu8) == root % 16) by (bit_vector);
    if semi >= 12 {
        return 48;
    }
    octave * 12 + semi
}

/// The cell of one tick of one tracker track: note, wave, volume, effect
/// command and argument bytes.
pub open spec fn tracker_cell_spec(note: u8, wave: u8, vol: u8, cmd: u8, arg: u8, lookup: Seq<(u16, u8)>) -> Cell {
    Cell {
        note: buzz_note_spec(note),
        instrument: wave_instrument_spec(wave, lookup),
        volume: buzz_volume_spec(vol),
        effect: effect_spec(cmd, arg),
    }
}

// ---------------------------------------------------------------------------
// Bit stream of compressed waves
// ---------------------------------------------------------------------------

/// Bit `i` of a byte stream, bits counted from the least significant bit of
/// each byte.
pub open spec fn bit_at(d: Seq<u8>, i: int) -> nat {
    (((d[i / 8] as u32) >> ((i % 8) as u32)) & 1) as nat
}

/// The value of the `n` bits from bit `b` on, the first one least significant.
pub open spec fn bits_value(d: Seq<u8>, b: int, n: nat) -> nat
    decreases n,
{
    if n == 0 { 0 } else { bit_at(d, b) + 2 * bits_value(d, b + 1, (n - 1) as nat) }
}

/// Bits `s..s + t` of byte `x`, the first one least significant.
pub open spec fn byte_bits(x: u8, s: u32, t: nat) -> nat
    decreases t,
{
    if t == 0 { 0 } else { ((((x as u32) >> s) & 1) as nat) + 2 * byte_bits(x, (s + 1) as u32, (t - 1) as nat) }
}

proof fn lemma_byte_bits(x: u8, s: u32, t: u32)
    requires
        s + t <= 8,
    ensures
        byte_bits(x, s, t as nat) == (((x as u32) >> s) & (((1u32 << t) - 1) as u32)),
    decreases t,
{
    if t == 0 {
        assert((((x as u32) >> s) & (((1u32 << 0u32) - 1) as u32)) == 0) by (bit_vector);
    } else {
        lemma_byte_bits(x, (s + 1) as u32, (t - 1) as u32);
        let xx = x as u32;
        let t1 = (t - 1) as u32;
        let s1 = (s + 1) as u32;
        assert((xx >> s) & (((1u32 << t) - 1) as u32) == ((xx >> s) & 1) + 2 * ((xx >> s1) & (((1u32 << t1) - 1) as u32)))
            by (bit_vector)
            requires
                xx < 256, 1 <= t, s + t <= 8, t1 + 1 == t, s1 == s + 1,
        ;
    }
}

proof fn lemma_bits_in_byte(d: Seq<u8>, b: int, t: nat)
    requires
        0 <= b,
        b % 8 + t <= 8,
    ensures
        bits_value(d, b, t) == byte_bits(d[b / 8], (b % 8) as u32, t),
    decreases t,
{
    if t > 0 {
        let x = d[b / 8];
        let s = (b % 8) as u32;
        lemma_bits_in_byte(d, b + 1, (t - 1) as nat);
        assert(bits_value(d, b, t) == bit_at(d, b) + 2 * bits_value(d, b + 1, (t - 1) as nat));
        assert(byte_bits(x, s, t) == ((((x as u32) >> s) & 1) as nat) + 2 * byte_bits(x, (s + 1) as u32, (t - 1) as nat));
        if t > 1 {
            assert((b + 1) / 8 == b / 8 && (b + 1) % 8 == b % 8 + 1);
            assert(((b + 1) % 8) as u32 == (s + 1) as u32);
        } else {
            assert(bits_value(d, b + 1, 0) == 0);
            assert(byte_bits(x, (s + 1) as u32, 0) == 0);
        }
    }
}

proof fn lemma_bits_split(d: Seq<u8>, b: int, m: nat, t: nat)
    ensures
        bits_value(d, b, m + t) == bits_value(d, b, m) + pow2(m) * bits_value(d, b + m, t),
    decreases m,
{
    if m == 0 {
        vstd::arithmetic::power2::lemma2_to64();
    } else {
        lemma_bits_split(d, b + 1, (m - 1) as nat, t);
        lemma_pow2_unfold(m);
        let rest = bits_value(d, b + m, t);
        assert(2 * (bits_value(d, b + 1, (m - 1) as nat) + pow2((m - 1) as nat) * rest)
            == 2 * bits_value(d, b + 1, (m - 1) as nat) + (2 * pow2((m - 1) as nat)) * rest) by (nonlinear_arith);
        assert((m + t - 1) as nat == (m - 1) as nat + t);
    }
}

proof fn lemma_bits_bound(d: Seq<u8>, b: int, n: nat)
    ensures
        bits_value(d, b, n) < pow2(n),
    decreases n,
{
    if n == 0 {
        vstd::arithmetic::power2::lemma2_to64();
    } else {
        lemma_bits_bound(d, b + 1, (n - 1) as nat);
        lemma_pow2_unfold(n);
        let v = (d[b / 8] as u32) >> ((b % 8) as u32);
        assert(v & 1 <= 1) by (bit_vector);
    }
}

/// Bit-stream reader for Buzz compressed wave data.
pub struct BitReader<'a> {
    data: &'a [u8],
    pos: usize,
    bit: u8,
}

impl<'a> BitReader<'a> {
    /// The bytes read.
    pub closed spec fn bytes(&self) -> Seq<u8> {
        self.data@
    }

    /// Index of the next bit to read.
    pub closed spec fn bit_index(&self) -> int {
        self.pos * 8 + self.bit
    }

    /// The reader's position is within a byte.
    pub closed spec fn wf(&self) -> bool {
        self.bit < 8
    }

    /// A reader at byte `start` of `data`.
    pub fn new(data: &'a [u8], start: usize) -> (r: Self)
        ensures
            r.wf(),
            r.bytes() == data@,
            r.bit_index() == start * 8,
    {
        Self { data, pos: start, bit: 0 }
    }

    /// Read `amount` bits (at most 32) from the stream, least significant
    /// first; running past the end of the data is an error.
    pub fn read_bits(&mut self, count: u32) -> (r: Result<u32, FormatError>)
        requires
            old(self).wf(),
            count <= 32,
        ensures
            final(self).wf(),
            final(self).bytes() == old(self).bytes(),
            (count > 0 && old(self).bit_index() + count > old(self).bytes().len() * 8) <==> r is Err,
            r is Err ==> r == Err::<u32, FormatError>(FormatError::UnexpectedEof),
            r matches Ok(v) ==> v == bits_value(old(self).bytes(), old(self).bit_index(), count as nat)
                && final(self).bit_index() == old(self).bit_index() + count,
    {
        let ghost b0 = self.bit_index();
        let mut amount = count;
        let mut result: u32 = 0;
        let mut shift: u32 = 0;
        while amount > 0
            invariant
                self.bit < 8,
                self.data@ == old(self).data@,
                shift + amount == count,
                count <= 32,
                self.pos * 8 + self.bit == b0 + shift,
                result == bits_value(self.data@, b0, shift as nat),
                b0 == old(self).pos * 8 + old(self).bit,
                count > 0 ==> (b0 + count > self.data@.len() * 8 <==> self.pos * 8 + self.bit + amount > self.data@.len() * 8),
                shift > 0 ==> self.pos * 8 + self.bit <= self.data@.len() * 8,
            decreases amount,
        {
            if self.pos >= self.data.len() {
                return Err(FormatError::UnexpectedEof);
            }
            let avail = 8 - self.bit as u32;
            let take = if amount < avail { amount } else { avail };
            assert(1 <= take <= 8 ==> (1u32 << take) >= 2) by (bit_vector);
            let mask = (1u32 << take) - 1;
            let byte = self.data[self.pos];
            let val = ((byte >> self.bit) as u32) & mask;
            proof {
                let bi = self.pos * 8 + self.bit;
                assert(bi / 8 == self.pos && bi % 8 == self.bit);
                let sb = self.bit;
                assert(((byte >> sb) as u32) == ((byte as u32) >> (sb as u32))) by (bit_vector) requires sb < 8;
                lemma_byte_bits(byte, self.bit as u32, take);
                lemma_bits_in_byte(self.data@, bi, take as nat);
                lemma_bits_split(self.data@, b0, shift as nat, take as nat);
                lemma_bits_bound(self.data@, b0, shift as nat);
                lemma_bits_bound(self.data@, bi, take as nat);
                lemma_pow2_adds(shift as nat, take as nat);
                vstd::bits::lemma_u32_pow2_no_overflow(shift as nat);
                vstd::arithmetic::power2::lemma2_to64();
                if shift + take < 32 {
                    vstd::bits::lemma_u32_pow2_no_overflow((shift + take) as nat);
                }
                let ps = pow2(shift as nat);
                let pt = pow2(take as nat);
                assert(pow2((shift + take) as nat) <= 0x1_0000_0000);
                assert(val * ps < 0x1_0000_0000) by (nonlinear_arith)
                    requires val < pt, ps > 0, ps * pt <= 0x1_0000_0000;
                assert(val * ps == ps * val) by (nonlinear_arith);
                assert(val == bits_value(self.data@, bi, take as nat));
                assert(bi == b0 + shift);
                vstd::bits::lemma_u32_shl_is_mul(val, shift);
                vstd::bits::lemma_u32_shl_is_mul(1, shift);
                assert((result | (val << shift)) == result + (val << shift)) by (bit_vector)
                    requires
                        shift < 32,
                        result < (1u32 << shift),
                ;
            }
            result = result | (val << shift);
            self.bit = self.bit + take as u8;
            if self.bit >= 8 {
                self.bit = 0;
                self.pos = self.pos + 1;
            }
            shift = shift + take;
            amount = amount - take;
        }
        Ok(result)
    }
}

/// The number of zero bits from bit `b` on before a one bit, if the data
/// holds a one bit there.
pub open spec fn zero_run(d: Seq<u8>, b: int) -> Option<int>
    decreases d.len() * 8 - b,
{
    if b < 0 || b >= d.len() * 8 {
        None
    } else if bit_at(d, b) == 1 {
        Some(0)
    } else {
        match zero_run(d, b + 1) {
            Some(k) => Some(k + 1),
            None => None,
        }
    }
}

proof fn lemma_zero_run_nonneg(d: Seq<u8>, b: int)
    ensures
        zero_run(d, b) matches Some(k) ==> k >= 0,
    decreases d.len() * 8 - b,
{
    if 0 <= b < d.len() * 8 && bit_at(d, b) != 1 {
        lemma_zero_run_nonneg(d, b + 1);
    }
}

impl<'a> BitReader<'a> {
    /// Count consecutive zero bits up to and including the next one bit
    /// (for variable-length prefix coding); an error when the data ends
    /// first, or when the count does not fit in 32 bits.
    pub fn count_zero_bits(&mut self) -> (r: Result<u32, FormatError>)
        requires
            old(self).wf(),
            old(self).bit_index() >= 0,
        ensures
            final(self).wf(),
            final(self).bytes() == old(self).bytes(),
            (zero_run(old(self).bytes(), old(self).bit_index()) matches Some(c) && c <= u32::MAX) <==> r is Ok,
            r is Err ==> r == Err::<u32, FormatError>(FormatError::UnexpectedEof),
            r matches Ok(c) ==> zero_run(old(self).bytes(), old(self).bit_index()) == Some(c as int)
                && final(self).bit_index() == old(self).bit_index() + c + 1,
    {
        let ghost b0 = self.bit_index();
        let mut count: u32 = 0;
        loop
            invariant_except_break
                self.bit < 8,
                self.data@ == old(self).data@,
                self.pos * 8 + self.bit == b0 + count,
                b0 == old(self).pos * 8 + old(self).bit,
                b0 >= 0,
                zero_run(self.data@, b0) == (match zero_run(self.data@, b0 + count) {
                    Some(k) => Some(k + count),
                    None => None,
                }),
            ensures
                self.bit < 8,
                self.data@ == old(self).data@,
            decreases self.data@.len() * 8 - (b0 + count),
        {
            let ghost bi = self.pos * 8 + self.bit;
            let bit = match self.read_bits(1) {
                Ok(v) => v,
                Err(e) => {
                    proof {
                        assert(bi >= self.data@.len() * 8);
                    }
                    return Err(e);
                },
            };
            proof {
                assert(bits_value(self.data@, bi, 1) == bit_at(self.data@, bi) + 2 * bits_value(self.data@, bi + 1, 0));
                let v = (self.data@[bi / 8] as u32) >> ((bi % 8) as u32);
                assert(v & 1 <= 1) by (bit_vector);
                assert(bit_at(self.data@, bi) == bit);
                assert(0 <= bi < self.data@.len() * 8);
            }
            if bit != 0 {
                return Ok(count);
            }
            if count == u32::MAX {
                proof {
                    lemma_zero_run_nonneg(self.data@, bi + 1);
                }
                return Err(FormatError::UnexpectedEof);
            }
            count = count + 1;
        }
    }

    /// Current byte position (for seek after decompression): the next whole
    /// byte after the bits read.
    pub fn byte_pos(&self) -> (r: usize)
        requires
            self.wf(),
        ensures
            r == (if self.bit_index() % 8 > 0 {
                if self.bit_index() / 8 + 1 <= usize::MAX { self.bit_index() / 8 + 1 } else { usize::MAX as int }
            } else {
                self.bit_index() / 8
            }),
    {
        if self.bit > 0 && self.pos < usize::MAX { self.pos + 1 } else { self.pos }
    }
}

/// Per-channel decompression state.
#[derive(Clone, Copy, Debug, Default, PartialEq, Eq, Structural)]
pub struct DecompState {
    /// First running sum
    pub sum1: i16,
    /// Second running sum
    pub sum2: i16,
    /// Last decoded sample
    pub result: i16,
}

/// The state after decoding `delta` with predictor `switch` (0 to 3, higher
/// values acting as 3), all in wrapping 16-bit arithmetic.
pub open spec fn next_state(switch: u32, st: DecompState, delta: i16) -> DecompState {
    if switch == 0 {
        DecompState {
            sum2: vstd::wrapping::i16_specs::wrapping_sub(vstd::wrapping::i16_specs::wrapping_sub(delta, st.result), st.sum1),
            sum1: vstd::wrapping::i16_specs::wrapping_sub(delta, st.result),
            result: delta,
        }
    } else if switch == 1 {
        DecompState {
            sum2: vstd::wrapping::i16_specs::wrapping_sub(delta, st.sum1),
            sum1: delta,
            result: vstd::wrapping::i16_specs::wrapping_add(st.result, delta),
        }
    } else if switch == 2 {
        let sum1 = vstd::wrapping::i16_specs::wrapping_add(st.sum1, delta);
        DecompState { sum2: delta, sum1, result: vstd::wrapping::i16_specs::wrapping_add(st.result, sum1) }
    } else {
        let sum2 = vstd::wrapping::i16_specs::wrapping_add(st.sum2, delta);
        let sum1 = vstd::wrapping::i16_specs::wrapping_add(st.sum1, sum2);
        DecompState { sum2, sum1, result: vstd::wrapping::i16_specs::wrapping_add(st.result, sum1) }
    }
}

/// `v` is `x` in 16-bit two's complement: the 16-bit value congruent to it
/// modulo 2^16.
pub open spec fn wraps_to(v: i16, x: int) -> bool {
    (v - x) % 65536 == 0
}

/// What each predictor decodes, in 16-bit wrapping arithmetic: predictor 0
/// takes the delta as the sample; predictor 1 adds the delta to the last
/// sample; predictor 2 adds the delta to the first running sum and that sum
/// to the last sample; predictor 3 (and above) adds the delta to the second
/// running sum, that to the first, and the first to the last sample.
pub proof fn lemma_predictors(switch: u32, st: DecompState, delta: i16)
    ensures
        ({
            let n = next_state(switch, st, delta);
            &&& switch == 0 ==> n.result == delta
            &&& switch == 1 ==> wraps_to(n.result, st.result + delta) && n.sum1 == delta
            &&& switch == 2 ==> wraps_to(n.sum1, st.sum1 + delta) && wraps_to(n.result, st.result + n.sum1)
            &&& switch >= 3 ==> wraps_to(n.sum2, st.sum2 + delta) && wraps_to(n.sum1, st.sum1 + n.sum2)
                && wraps_to(n.result, st.result + n.sum1)
        }),
{
}

/// Under predictor 1 the decoded samples are the running sum of the
/// deltas: starting from sample `r0`, after deltas `a` then `b` the sample
/// is `r0 + a + b` modulo 2^16.
pub proof fn lemma_predictor_one_sums(st: DecompState, a: i16, b: i16)
    ensures
        wraps_to(next_state(1, next_state(1, st, a), b).result, st.result + a + b),
{
    let m = next_state(1, st, a);
    assert((m.result - (st.result + a)) % 65536 == 0);
    let n = next_state(1, m, b);
    assert((n.result - (m.result + b)) % 65536 == 0);
    assert(n.result - (st.result + a + b) == (n.result - (m.result + b)) + (m.result - (st.result + a)));
}

/// The code of one sample at bit `b`: `bits` low bits, then a run of zero
/// bits ended by a one bit giving the high part; and the bit after it.
pub open spec fn sample_code(d: Seq<u8>, b: int, bits: u32) -> Option<(u32, int)> {
    if bits > 0 && b + bits > d.len() * 8 {
        None
    } else {
        let val = bits_value(d, b, bits as nat);
        match zero_run(d, b + bits) {
            None => None,
            Some(z) => if z > u32::MAX {
                None
            } else {
                Some((((z as u32) << bits) | (val as u32), b + bits + z + 1))
            },
        }
    }
}

/// Decode `n` samples from bit `b` on: the samples, the state after them
/// and the bit after them; `None` when the data ends first.
#[verifier::opaque]
pub open spec fn block_decode(d: Seq<u8>, b: int, switch: u32, bits: u32, st: DecompState, n: nat) -> Option<(Seq<i16>, DecompState, int)>
    decreases n,
{
    if n == 0 {
        Some((seq![], st, b))
    } else {
        match sample_code(d, b, bits) {
            None => None,
            Some((code, b1)) => {
                let st1 = next_state(switch, st, decode_signed_spec(code));
                match block_decode(d, b1, switch, bits, st1, (n - 1) as nat) {
                    None => None,
                    Some((rest, st2, b2)) => Some((seq![st1.result] + rest, st2, b2)),
                }
            },
        }
    }
}

/// A compressed block of `n` samples at bit `b`: a 2-bit predictor and a
/// 4-bit code width, then the sample codes.
pub open spec fn block_spec(d: Seq<u8>, b: int, st: DecompState, n: nat) -> Option<(Seq<i16>, DecompState, int)> {
    if b + 6 > d.len() * 8 {
        None
    } else {
        block_decode(d, b + 6, bits_value(d, b, 2) as u32, bits_value(d, b + 2, 4) as u32, st, n)
    }
}

/// The samples of a block followed by those decoded after a prefix.
pub open spec fn after_prefix(prefix: Seq<i16>, rest: Option<(Seq<i16>, DecompState, int)>) -> Option<(Seq<i16>, DecompState, int)> {
    match rest {
        None => None,
        Some((r, st, b)) => Some((prefix + r, st, b)),
    }
}

proof fn lemma_block_decode_step(d: Seq<u8>, b: int, switch: u32, bits: u32, st: DecompState, n: nat, prefix: Seq<i16>)
    requires
        n > 0,
    ensures
        after_prefix(prefix, block_decode(d, b, switch, bits, st, n)) == match sample_code(d, b, bits) {
            None => None,
            Some((code, b1)) => {
                let st1 = next_state(switch, st, decode_signed_spec(code));
                after_prefix(prefix.push(st1.result), block_decode(d, b1, switch, bits, st1, (n - 1) as nat))
            },
        },
{
    reveal(block_decode);
    match sample_code(d, b, bits) {
        None => {},
        Some((code, b1)) => {
            let st1 = next_state(switch, st, decode_signed_spec(code));
            match block_decode(d, b1, switch, bits, st1, (n - 1) as nat) {
                None => {},
                Some((rest, st2, b2)) => {
                    assert(prefix + (seq![st1.result] + rest) =~= prefix.push(st1.result) + rest);
                },
            }
        },
    }
}

proof fn lemma_block_decode_len(d: Seq<u8>, b: int, switch: u32, bits: u32, st: DecompState, n: nat)
    ensures
        block_decode(d, b, switch, bits, st, n) matches Some((v, _, _)) ==> v.len() == n,
    decreases n,
{
    reveal(block_decode);
    if n > 0 {
        match sample_code(d, b, bits) {
            None => {},
            Some((code, b1)) => {
                let st1 = next_state(switch, st, decode_signed_spec(code));
                lemma_block_decode_len(d, b1, switch, bits, st1, (n - 1) as nat);
            },
        }
    }
}

/// A block decodes to as many samples as asked for.
pub proof fn lemma_block_len(d: Seq<u8>, b: int, st: DecompState, n: nat)
    ensures
        block_spec(d, b, st, n) matches Some((v, _, _)) ==> v.len() == n,
{
    if b + 6 <= d.len() * 8 {
        lemma_block_decode_len(d, b + 6, bits_value(d, b, 2) as u32, bits_value(d, b + 2, 4) as u32, st, n);
    }
}

proof fn lemma_block_decode_zero(d: Seq<u8>, b: int, switch: u32, bits: u32, st: DecompState)
    ensures
        block_decode(d, b, switch, bits, st, 0) == Some((Seq::<i16>::empty(), st, b)),
{
    reveal(block_decode);
}

fn step_state(switch: u32, st: &mut DecompState, delta: i16)
    ensures
        *final(st) == next_state(switch, *old(st), delta),
{
    if switch == 0 {
        st.sum2 = delta.wrapping_sub(st.result).wrapping_sub(st.sum1);
        st.sum1 = delta.wrapping_sub(st.result);
        st.result = delta;
    } else if switch == 1 {
        st.sum2 = delta.wrapping_sub(st.sum1);
        st.sum1 = delta;
        st.result = st.result.wrapping_add(delta);
    } else if switch == 2 {
        st.sum2 = delta;
        st.sum1 = st.sum1.wrapping_add(delta);
        st.result = st.result.wrapping_add(st.sum1);
    } else {
        st.sum2 = st.sum2.wrapping_add(delta);
        st.sum1 = st.sum1.wrapping_add(st.sum2);
        st.result = st.result.wrapping_add(st.sum1);
    }
}

/// Decode one sample code at the reader and step the state with it;
/// returns the new last sample.
fn decode_sample(br: &mut BitReader, switch: u32, bits: u32, state: &mut DecompState) -> (r: Result<i16, FormatError>)
    requires
        old(br).wf(),
        old(br).bit_index() >= 0,
        bits <= 15,
    ensures
        final(br).wf(),
        final(br).bytes() == old(br).bytes(),
        final(br).bit_index() >= 0,
        match sample_code(old(br).bytes(), old(br).bit_index(), bits) {
            None => r is Err,
            Some((code, b1)) => r == Ok::<i16, FormatError>(final(state).result) && final(br).bit_index() == b1
                && *final(state) == next_state(switch, *old(state), decode_signed_spec(code)),
        },
{
    let val = match br.read_bits(bits) {
        Ok(v) => v,
        Err(e) => return Err(e),
    };
    let zeros = match br.count_zero_bits() {
        Ok(z) => z,
        Err(e) => return Err(e),
    };
    let combined = (zeros << bits) | val;
    let delta = decode_signed(combined);
    step_state(switch, state, delta);
    Ok(state.result)
}

/// Decompress one block of `count` samples for one channel.
pub fn decompress_block(br: &mut BitReader, state: &mut DecompState, count: usize) -> (r: Result<Vec<i16>, FormatError>)
    requires
        old(br).wf(),
        old(br).bit_index() >= 0,
    ensures
        final(br).wf(),
        final(br).bytes() == old(br).bytes(),
        match block_spec(old(br).bytes(), old(br).bit_index(), *old(state), count as nat) {
            None => r is Err,
            Some((samples, st, b)) => r matches Ok(out) && out@ == samples && *final(state) == st && final(br).bit_index() == b,
        },
{
    let ghost d = br.bytes();
    let ghost b0 = br.bit_index();
    let switch = match br.read_bits(2) {
        Ok(v) => v,
        Err(e) => return Err(e),
    };
    let bits = match br.read_bits(4) {
        Ok(v) => v,
        Err(e) => return Err(e),
    };
    proof {
        lemma_bits_bound(d, b0 + 2, 4);
        vstd::arithmetic::power2::lemma2_to64();
    }
    let ghost total = block_spec(d, b0, *state, count as nat);
    let mut out: Vec<i16> = Vec::new();
    proof {
        assert(after_prefix(out@, block_decode(d, b0 + 6, switch, bits, *state, count as nat)) == total) by {
            match block_decode(d, b0 + 6, switch, bits, *state, count as nat) {
                None => {},
                Some((r, st, b)) => {
                    assert(Seq::<i16>::empty() + r =~= r);
                },
            }
        }
    }
    let mut i: usize = 0;
    while i < count
        invariant
            br.wf(),
            br.bytes() == d,
            d == old(br).bytes(),
            br.bit_index() >= 0,
            bits <= 15,
            i <= count,
            total == after_prefix(out@, block_decode(d, br.bit_index(), switch, bits, *state, (count - i) as nat)),
            total == block_spec(old(br).bytes(), old(br).bit_index(), *old(state), count as nat),
        decreases count - i,
    {
        let ghost b = br.bit_index();
        proof {
            lemma_block_decode_step(d, b, switch, bits, *state, (count - i) as nat, out@);
        }
        match decode_sample(br, switch, bits, state) {
            Ok(r) => {
                out.push(r);
            },
            Err(e) => {
                proof {
                    assert(sample_code(d, b, bits) is None);
                    assert(total is None);
                }
                return Err(e);
            },
        }
        i = i + 1;
    }
    proof {
        lemma_block_decode_zero(d, br.bit_index(), switch, bits, *state);
        assert(out@ + Seq::<i16>::empty() =~= out@);
    }
    Ok(out)
}

/// A value clamped to the 16-bit range.
pub open spec fn clamp16(v: i32) -> i16 {
    if v < -32768 { -32768i16 } else if v > 32767 { 32767i16 } else { v as i16 }
}

/// A decoded sample scaled up by the result shift, clamped to 16 bits.
pub open spec fn scaled(v: int, shift: u32) -> i16 {
    clamp16((v as i32) << shift)
}

/// Mono output of a block: every sample scaled.
pub open spec fn mono_block(samples: Seq<i16>, shift: u32) -> Seq<i16> {
    Seq::new(samples.len(), |k: int| scaled(samples[k] as int, shift))
}

/// Stereo output of a block: left and right interleaved and scaled; the
/// right channel holds the sum of both when `sum` is set.
pub open spec fn stereo_block(left: Seq<i16>, right: Seq<i16>, shift: u32, sum: bool) -> Seq<i16> {
    Seq::new(2 * left.len(), |k: int| if k % 2 == 0 {
        scaled(left[k / 2] as int, shift)
    } else {
        scaled(if sum { right[k / 2] + left[k / 2] } else { right[k / 2] as int }, shift)
    })
}

/// Decode the remaining `remaining` frames of a wave in blocks of
/// `block_size` (the last one shorter), channel after channel within a block:
/// the output and the bit after it.
#[verifier::opaque]
pub open spec fn wave_rest(
    d: Seq<u8>,
    b: int,
    stereo: bool,
    st0: DecompState,
    st1: DecompState,
    remaining: nat,
    block_size: nat,
    shift: u32,
    sum: bool,
) -> Option<(Seq<i16>, int)>
    decreases remaining,
{
    if remaining == 0 || block_size == 0 {
        Some((seq![], b))
    } else {
        let bs = if remaining < block_size { remaining } else { block_size };
        match block_spec(d, b, st0, bs) {
            None => None,
            Some((left, s0, b1)) => if !stereo {
                match wave_rest(d, b1, stereo, s0, st1, (remaining - bs) as nat, block_size, shift, sum) {
                    None => None,
                    Some((rest, b2)) => Some((mono_block(left, shift) + rest, b2)),
                }
            } else {
                match block_spec(d, b1, st1, bs) {
                    None => None,
                    Some((right, s1, b2)) => match wave_rest(d, b2, stereo, s0, s1, (remaining - bs) as nat, block_size, shift, sum) {
                        None => None,
                        Some((rest, b3)) => Some((stereo_block(left, right, shift, sum) + rest, b3)),
                    },
                }
            },
        }
    }
}

/// A compressed wave of `frames` frames at bit `b`: a run of zero bits, the
/// block size exponent and the result shift (4 bits each), for stereo a bit
/// telling whether the right channel holds the sum, then the blocks. Its
/// samples and the bit after it.
pub open spec fn wave_full(d: Seq<u8>, b: int, frames: nat, stereo: bool) -> Option<(Seq<i16>, int)> {
    match zero_run(d, b) {
        None => None,
        Some(z) => {
            let h = b + z + 1;
            let hb = if stereo { 9int } else { 8int };
            if z > u32::MAX || h + hb > d.len() * 8 {
                None
            } else {
                let block_size = pow2(bits_value(d, h, 4));
                let shift = bits_value(d, h + 4, 4) as u32;
                let sum = stereo && bits_value(d, h + 8, 1) != 0;
                wave_rest(d, h + hb, stereo, DecompState { sum1: 0, sum2: 0, result: 0 }, DecompState { sum1: 0, sum2: 0, result: 0 }, frames, block_size, shift, sum)
            }
        },
    }
}

/// The samples of the compressed wave of `frames` frames at bit `b`.
pub open spec fn wave_spec(d: Seq<u8>, b: int, frames: nat, stereo: bool) -> Option<Seq<i16>> {
    match wave_full(d, b, frames, stereo) {
        None => None,
        Some((out, _)) => Some(out),
    }
}

fn scale_sample(v: i32, shift: u32) -> (r: i16)
    requires
        -65536 <= v <= 65534,
        shift <= 15,
    ensures
        r == scaled(v as int, shift),
{
    let w = v << shift;
    if w < -32768 { -32768 } else if w > 32767 { 32767 } else { w as i16 }
}

/// Scale decoded mono samples by `shift`, clamped to 16 bits.
pub fn apply_result_shift(samples: &mut Vec<i16>, shift: u32)
    requires
        shift <= 15,
    ensures
        final(samples)@ == mono_block(old(samples)@, shift),
{
    let ghost orig = samples@;
    let mut i: usize = 0;
    while i < samples.len()
        invariant
            shift <= 15,
            samples@.len() == orig.len(),
            i <= orig.len(),
            forall|k: int| 0 <= k < i ==> samples@[k] == scaled(orig[k] as int, shift),
            forall|k: int| i <= k < orig.len() ==> samples@[k] == orig[k],
        decreases orig.len() - i,
    {
        let v = scale_sample(samples[i] as i32, shift);
        samples.set(i, v);
        i = i + 1;
    }
    assert(samples@ =~= mono_block(orig, shift));
}

fn interleave_block(out: &mut Vec<i16>, left: &Vec<i16>, right: &Vec<i16>, shift: u32, sum: bool)
    requires
        left@.len() == right@.len(),
        shift <= 15,
    ensures
        final(out)@ == old(out)@ + stereo_block(left@, right@, shift, sum),
{
    let mut i: usize = 0;
    while i < left.len()
        invariant
            left@.len() == right@.len(),
            shift <= 15,
            i <= left@.len(),
            out@ =~= old(out)@ + stereo_block(left@, right@, shift, sum).take(2 * i),
        decreases left@.len() - i,
    {
        let l = scale_sample(left[i] as i32, shift);
        let r = if sum { scale_sample(right[i] as i32 + left[i] as i32, shift) } else { scale_sample(right[i] as i32, shift) };
        out.push(l);
        out.push(r);
        proof {
            let sb = stereo_block(left@, right@, shift, sum);
            assert(sb[2 * i] == l);
            assert(sb[2 * i + 1] == r);
            assert(sb.take(2 * i + 2) =~= sb.take(2 * i).push(l).push(r));
        }
        i = i + 1;
    }
    proof {
        assert(stereo_block(left@, right@, shift, sum).take(2 * (left@.len() as int)) =~= stereo_block(left@, right@, shift, sum));
    }
}

/// The output of a wave after a prefix already produced.
pub open spec fn wave_after(prefix: Seq<i16>, rest: Option<(Seq<i16>, int)>) -> Option<(Seq<i16>, int)> {
    match rest {
        None => None,
        Some((r, e)) => Some((prefix + r, e)),
    }
}

proof fn lemma_wave_rest_step(
    d: Seq<u8>,
    b: int,
    stereo: bool,
    st0: DecompState,
    st1: DecompState,
    remaining: nat,
    block_size: nat,
    shift: u32,
    sum: bool,
    prefix: Seq<i16>,
)
    requires
        remaining > 0,
        block_size > 0,
    ensures
        ({
            let bs = if remaining < block_size { remaining } else { block_size };
            wave_after(prefix, wave_rest(d, b, stereo, st0, st1, remaining, block_size, shift, sum)) == match block_spec(d, b, st0, bs) {
                None => None,
                Some((left, s0, b1)) => if !stereo {
                    wave_after(prefix + mono_block(left, shift), wave_rest(d, b1, stereo, s0, st1, (remaining - bs) as nat, block_size, shift, sum))
                } else {
                    match block_spec(d, b1, st1, bs) {
                        None => None,
                        Some((right, s1, b2)) => wave_after(
                            prefix + stereo_block(left, right, shift, sum),
                            wave_rest(d, b2, stereo, s0, s1, (remaining - bs) as nat, block_size, shift, sum),
                        ),
                    }
                },
            }
        }),
{
    reveal(wave_rest);
    let bs = if remaining < block_size { remaining } else { block_size };
    match block_spec(d, b, st0, bs) {
        None => {},
        Some((left, s0, b1)) => if !stereo {
            match wave_rest(d, b1, stereo, s0, st1, (remaining - bs) as nat, block_size, shift, sum) {
                None => {},
                Some((rest, b2)) => {
                    assert(prefix + (mono_block(left, shift) + rest) =~= prefix + mono_block(left, shift) + rest);
                },
            }
        } else {
            match block_spec(d, b1, st1, bs) {
                None => {},
                Some((right, s1, b2)) => match wave_rest(d, b2, stereo, s0, s1, (remaining - bs) as nat, block_size, shift, sum) {
                    None => {},
                    Some((rest, b3)) => {
                        assert(prefix + (stereo_block(left, right, shift, sum) + rest)
                            =~= prefix + stereo_block(left, right, shift, sum) + rest);
                    },
                },
            }
        },
    }
}

proof fn lemma_wave_rest_done(d: Seq<u8>, b: int, stereo: bool, st0: DecompState, st1: DecompState, block_size: nat, shift: u32, sum: bool)
    ensures
        wave_rest(d, b, stereo, st0, st1, 0, block_size, shift, sum) == Some((Seq::<i16>::empty(), b)),
{
    reveal(wave_rest);
}

/// Decompress a full Buzz compressed wave of `num_samples` frames (mono, or
/// stereo interleaved).
pub fn decompress_wave(br: &mut BitReader, num_samples: usize, stereo: bool) -> (r: Result<Vec<i16>, FormatError>)
    requires
        old(br).wf(),
        old(br).bit_index() >= 0,
    ensures
        final(br).wf(),
        final(br).bytes() == old(br).bytes(),
        match wave_full(old(br).bytes(), old(br).bit_index(), num_samples as nat, stereo) {
            None => r is Err,
            Some((out, end)) => r matches Ok(v) && v@ == out && final(br).bit_index() == end,
        },
{
    let ghost d = br.bytes();
    let ghost b0 = br.bit_index();
    // Skip leading zero bits
    let _leading = match br.count_zero_bits() {
        Ok(z) => z,
        Err(e) => return Err(e),
    };
    let ghost h = br.bit_index();
    let shift_bits = match br.read_bits(4) {
        Ok(v) => v,
        Err(e) => return Err(e),
    };
    let result_shift = match br.read_bits(4) {
        Ok(v) => v,
        Err(e) => return Err(e),
    };
    let sum_channels = if stereo {
        match br.read_bits(1) {
            Ok(v) => v != 0,
            Err(e) => return Err(e),
        }
    } else {
        false
    };
    proof {
        lemma_bits_bound(d, h, 4);
        lemma_bits_bound(d, h + 4, 4);
        vstd::arithmetic::power2::lemma2_to64();
        vstd::bits::lemma_u32_shl_is_mul(1, shift_bits);
        assert(h + (if stereo { 9int } else { 8int }) <= d.len() * 8);
    }
    let block_size: usize = 1usize << (shift_bits as usize);
    proof {
        assert(block_size == pow2(shift_bits as nat)) by {
            vstd::bits::lemma_usize_shl_is_mul(1, shift_bits as usize);
        }
    }
    let ghost total = wave_full(d, b0, num_samples as nat, stereo);
    let mut states0 = DecompState { sum1: 0, sum2: 0, result: 0 };
    let mut states1 = DecompState { sum1: 0, sum2: 0, result: 0 };
    let mut output: Vec<i16> = Vec::new();
    let mut remaining: usize = num_samples;
    proof {
        match wave_rest(d, br.bit_index(), stereo, states0, states1, remaining as nat, block_size as nat, result_shift, sum_channels) {
            None => {},
            Some((o, _)) => {
                assert(Seq::<i16>::empty() + o =~= o);
            },
        }
    }
    while remaining > 0
        invariant
            br.wf(),
            br.bytes() == d,
            d == old(br).bytes(),
            br.bit_index() >= 0,
            block_size >= 1,
            result_shift <= 15,
            total == wave_full(old(br).bytes(), old(br).bit_index(), num_samples as nat, stereo),
            total == wave_after(output@, wave_rest(d, br.bit_index(), stereo, states0, states1, remaining as nat, block_size as nat, result_shift, sum_channels)),
        decreases remaining,
    {
        let bs = if remaining < block_size { remaining } else { block_size };
        proof {
            let b = br.bit_index();
            lemma_block_len(d, b, states0, bs as nat);
            match block_spec(d, b, states0, bs as nat) {
                None => {},
                Some((_, _, b1)) => {
                    lemma_block_len(d, b1, states1, bs as nat);
                },
            }
            lemma_wave_rest_step(d, br.bit_index(), stereo, states0, states1, remaining as nat, block_size as nat, result_shift, sum_channels, output@);
        }
        let mut left = match decompress_block(br, &mut states0, bs) {
            Ok(v) => v,
            Err(e) => return Err(e),
        };
        if !stereo {
            apply_result_shift(&mut left, result_shift);
            output.append(&mut left);
        } else {
            let right = match decompress_block(br, &mut states1, bs) {
                Ok(v) => v,
                Err(e) => return Err(e),
            };
            interleave_block(&mut output, &left, &right, result_shift, sum_channels);
        }
        remaining = remaining - bs;
    }
    proof {
        lemma_wave_rest_done(d, br.bit_index(), stereo, states0, states1, block_size as nat, result_shift, sum_channels);
        assert(output@ + Seq::<i16>::empty() =~= output@);
    }
    Ok(output)
}

// ---------------------------------------------------------------------------
// Byte reader
// ---------------------------------------------------------------------------

/// Parameter type of a 16-bit parameter (others take one byte).
pub const PT_WORD: u8 = 3;

/// Parameter type of a byte parameter.
pub const PT_BYTE: u8 = 2;

/// A cursor over the bytes of a file.
pub struct BmxReader<'a> {
    data: &'a [u8],
    pos: usize,
}

/// Where a zero-terminated string from `pos` ends (its terminator, or the
/// end of the data).
pub open spec fn string_end(d: Seq<u8>, pos: int) -> int {
    first_nul_from(d, pos)
}

impl<'a> BmxReader<'a> {
    /// The bytes read.
    pub closed spec fn bytes(&self) -> Seq<u8> {
        self.data@
    }

    /// The read position.
    pub closed spec fn position(&self) -> int {
        self.pos as int
    }

    /// A reader at the start of `data`.
    pub fn new(data: &'a [u8]) -> (r: Self)
        ensures
            r.bytes() == data@,
            r.position() == 0,
    {
        Self { data, pos: 0 }
    }

    /// Move to byte `pos`.
    pub fn seek(&mut self, pos: usize)
        ensures
            final(self).bytes() == old(self).bytes(),
            final(self).position() == pos,
    {
        self.pos = pos;
    }

    /// Skip `n` bytes; an error past the end.
    pub fn skip(&mut self, n: usize) -> (r: Result<(), FormatError>)
        ensures
            final(self).bytes() == old(self).bytes(),
            (old(self).position() + n > old(self).bytes().len()) <==> r is Err,
            r is Err ==> r == Err::<(), FormatError>(FormatError::UnexpectedEof) && *final(self) == *old(self),
            r is Ok ==> final(self).position() == old(self).position() + n,
    {
        if self.pos > self.data.len() || n > self.data.len() - self.pos {
            return Err(FormatError::UnexpectedEof);
        }
        self.pos = self.pos + n;
        Ok(())
    }

    /// Read one byte.
    pub fn read_u8(&mut self) -> (r: Result<u8, FormatError>)
        ensures
            final(self).bytes() == old(self).bytes(),
            (old(self).position() >= old(self).bytes().len()) <==> r is Err,
            r is Err ==> r == Err::<u8, FormatError>(FormatError::UnexpectedEof) && *final(self) == *old(self),
            r matches Ok(v) ==> v == old(self).bytes()[old(self).position()] && final(self).position() == old(self).position() + 1,
    {
        if self.pos >= self.data.len() {
            return Err(FormatError::UnexpectedEof);
        }
        let v = self.data[self.pos];
        self.pos = self.pos + 1;
        Ok(v)
    }

    /// Read a little-endian 16-bit word.
    pub fn read_u16_le(&mut self) -> (r: Result<u16, FormatError>)
        ensures
            final(self).bytes() == old(self).bytes(),
            (old(self).position() + 2 > old(self).bytes().len()) <==> r is Err,
            r is Err ==> r == Err::<u16, FormatError>(FormatError::UnexpectedEof) && *final(self) == *old(self),
            r matches Ok(v) ==> v == le16_at(old(self).bytes(), old(self).position()) && final(self).position() == old(self).position() + 2,
    {
        if self.pos > self.data.len() || 2 > self.data.len() - self.pos {
            return Err(FormatError::UnexpectedEof);
        }
        let v = self.data[self.pos] as u16 + self.data[self.pos + 1] as u16 * 256;
        self.pos = self.pos + 2;
        Ok(v)
    }

    /// Read a little-endian 32-bit word.
    pub fn read_u32_le(&mut self) -> (r: Result<u32, FormatError>)
        ensures
            final(self).bytes() == old(self).bytes(),
            (old(self).position() + 4 > old(self).bytes().len()) <==> r is Err,
            r is Err ==> r == Err::<u32, FormatError>(FormatError::UnexpectedEof) && *final(self) == *old(self),
            r matches Ok(v) ==> v == le32_at(old(self).bytes(), old(self).position()) && final(self).position() == old(self).position() + 4,
    {
        if self.pos > self.data.len() || 4 > self.data.len() - self.pos {
            return Err(FormatError::UnexpectedEof);
        }
        let p = self.pos;
        let v = self.data[p] as u32 + self.data[p + 1] as u32 * 256 + self.data[p + 2] as u32 * 65536
            + self.data[p + 3] as u32 * 16777216;
        self.pos = self.pos + 4;
        Ok(v)
    }

    /// Read a little-endian 32-bit signed word.
    pub fn read_i32_le(&mut self) -> (r: Result<i32, FormatError>)
        ensures
            final(self).bytes() == old(self).bytes(),
            (old(self).position() + 4 > old(self).bytes().len()) <==> r is Err,
            r is Err ==> r == Err::<i32, FormatError>(FormatError::UnexpectedEof) && *final(self) == *old(self),
            r matches Ok(v) ==> v == (le32_at(old(self).bytes(), old(self).position()) as u32) as i32
                && final(self).position() == old(self).position() + 4,
    {
        match self.read_u32_le() {
            Ok(v) => Ok(v as i32),
            Err(e) => Err(e),
        }
    }

    /// Read the raw bits of a little-endian 32-bit float.
    pub fn read_f32_bits(&mut self) -> (r: Result<u32, FormatError>)
        ensures
            final(self).bytes() == old(self).bytes(),
            (old(self).position() + 4 > old(self).bytes().len()) <==> r is Err,
            r is Err ==> r == Err::<u32, FormatError>(FormatError::UnexpectedEof) && *final(self) == *old(self),
            r matches Ok(v) ==> v == le32_at(old(self).bytes(), old(self).position()) && final(self).position() == old(self).position() + 4,
    {
        self.read_u32_le()
    }

    /// Read a zero-terminated string (decoded leniently); the terminator,
    /// if present, is consumed.
    pub fn read_null_string(&mut self) -> (r: Result<String, FormatError>)
        requires
            old(self).position() <= old(self).bytes().len(),
        ensures
            final(self).bytes() == old(self).bytes(),
            r matches Ok(s) && s@ == lossy_text(old(self).bytes().subrange(old(self).position(), string_end(old(self).bytes(), old(self).position()))),
            final(self).position() == (if string_end(old(self).bytes(), old(self).position()) < old(self).bytes().len() {
                string_end(old(self).bytes(), old(self).position()) + 1
            } else {
                string_end(old(self).bytes(), old(self).position())
            }),
            final(self).position() <= final(self).bytes().len(),
    {
        let start = self.pos;
        while self.pos < self.data.len() && self.data[self.pos] != 0
            invariant
                start <= self.pos <= self.data@.len(),
                self.data@ == old(self).data@,
                start == old(self).pos,
                first_nul_from(self.data@, start as int) == first_nul_from(self.data@, self.pos as int),
            decreases self.data@.len() - self.pos,
        {
            self.pos = self.pos + 1;
        }
        let s = text_from_utf8_lossy(slice_range(self.data, start, self.pos));
        if self.pos < self.data.len() {
            self.pos = self.pos + 1;
        }
        Ok(s)
    }

    /// Read `n` bytes.
    pub fn read_bytes(&mut self, n: usize) -> (r: Result<&'a [u8], FormatError>)
        ensures
            final(self).bytes() == old(self).bytes(),
            (old(self).position() + n > old(self).bytes().len()) <==> r is Err,
            r is Err ==> r == Err::<&[u8], FormatError>(FormatError::UnexpectedEof) && *final(self) == *old(self),
            r matches Ok(b) ==> b@ == old(self).bytes().subrange(old(self).position(), old(self).position() + n)
                && final(self).position() == old(self).position() + n,
    {
        if self.pos > self.data.len() || n > self.data.len() - self.pos {
            return Err(FormatError::UnexpectedEof);
        }
        let slice = slice_range(self.data, self.pos, self.pos + n);
        self.pos = self.pos + n;
        Ok(slice)
    }

    /// Read an unsigned value 1, 2 or 4 bytes wide; other widths are not
    /// supported.
    pub fn read_var_uint(&mut self, width: u8) -> (r: Result<u32, FormatError>)
        ensures
            final(self).bytes() == old(self).bytes(),
            width != 1 && width != 2 && width != 4 ==> r == Err::<u32, FormatError>(FormatError::UnsupportedVersion),
            (width == 1 || width == 2 || width == 4) ==> ((old(self).position() + width > old(self).bytes().len()) <==> r is Err),
            (width == 1 || width == 2 || width == 4) && r is Err ==> r == Err::<u32, FormatError>(FormatError::UnexpectedEof),
            r matches Ok(v) ==> final(self).position() == old(self).position() + width && v == (if width == 1 {
                old(self).bytes()[old(self).position()] as int
            } else if width == 2 {
                le16_at(old(self).bytes(), old(self).position()) as int
            } else {
                le32_at(old(self).bytes(), old(self).position()) as int
            }),
    {
        if width == 1 {
            match self.read_u8() {
                Ok(v) => Ok(v as u32),
                Err(e) => Err(e),
            }
        } else if width == 2 {
            match self.read_u16_le() {
                Ok(v) => Ok(v as u32),
                Err(e) => Err(e),
            }
        } else if width == 4 {
            self.read_u32_le()
        } else {
            Err(FormatError::UnsupportedVersion)
        }
    }
}

// ---------------------------------------------------------------------------
// Section directory
// ---------------------------------------------------------------------------

/// An entry of the section directory.
#[derive(Clone, Copy, Debug)]
pub struct SectionEntry {
    /// Four-letter section name
    pub name: [u8; 4],
    /// Offset of the section in the file
    pub offset: u32,
    /// Size of the section
    pub size: u32,
}

/// The section directory of a BMX file: "Buzz", a 32-bit count, then per
/// section a 4-byte name, a 32-bit offset and a 32-bit size.
pub open spec fn directory_spec(d: Seq<u8>) -> Result<Seq<(Seq<u8>, u32, u32)>, FormatError> {
    if d.len() < 4 {
        Err(FormatError::UnexpectedEof)
    } else if d.subrange(0, 4) != seq![66u8, 117, 122, 122] {
        Err(FormatError::InvalidHeader)
    } else if d.len() < 8 {
        Err(FormatError::UnexpectedEof)
    } else if 8 + 12 * le32_at(d, 4) > d.len() {
        Err(FormatError::UnexpectedEof)
    } else {
        Ok(Seq::new(le32_at(d, 4), |k: int| (d.subrange(8 + 12 * k, 12 + 12 * k), le32_at(d, 12 + 12 * k) as u32, le32_at(d, 16 + 12 * k) as u32)))
    }
}

/// Read the section directory.
pub fn parse_header(r: &mut BmxReader) -> (res: Result<Vec<SectionEntry>, FormatError>)
    requires
        old(r).position() == 0,
    ensures
        final(r).bytes() == old(r).bytes(),
        directory_spec(old(r).bytes()) is Err <==> res is Err,
        res matches Err(e) ==> directory_spec(old(r).bytes()) == Err::<Seq<(Seq<u8>, u32, u32)>, FormatError>(e),
        res matches Ok(v) ==> directory_spec(old(r).bytes()) matches Ok(dir) && v@.len() == dir.len()
            && forall|k: int| 0 <= k < dir.len() ==> ((#[trigger] v@[k]).name@, v@[k].offset, v@[k].size) == dir[k],
{
    let ghost d = r.bytes();
    let magic = match r.read_bytes(4) {
        Ok(m) => m,
        Err(e) => return Err(e),
    };
    if !(magic[0] == 66 && magic[1] == 117 && magic[2] == 122 && magic[3] == 122) {
        proof {
            if d.subrange(0, 4) == seq![66u8, 117, 122, 122] {
                assert(magic@[0] == d.subrange(0, 4)[0]);
                assert(magic@[1] == d.subrange(0, 4)[1]);
                assert(magic@[2] == d.subrange(0, 4)[2]);
                assert(magic@[3] == d.subrange(0, 4)[3]);
            }
        }
        return Err(FormatError::InvalidHeader);
    }
    proof {
        assert(d.subrange(0, 4) =~= seq![66u8, 117, 122, 122]);
    }
    let num_sections = match r.read_u32_le() {
        Ok(n) => n as usize,
        Err(e) => return Err(e),
    };
    let mut sections: Vec<SectionEntry> = Vec::new();
    let mut k: usize = 0;
    while k < num_sections
        invariant
            r.bytes() == d,
            d == old(r).bytes(),
            d.len() >= 8,
            d.subrange(0, 4) == seq![66u8, 117, 122, 122],
            num_sections == le32_at(d, 4),
            k <= num_sections,
            r.position() == 8 + 12 * k,
            sections@.len() == k,
            forall|j: int| 0 <= j < k ==> ((#[trigger] sections@[j]).name@, sections@[j].offset, sections@[j].size)
                == (d.subrange(8 + 12 * j, 12 + 12 * j), le32_at(d, 12 + 12 * j) as u32, le32_at(d, 16 + 12 * j) as u32),
            8 + 12 * k <= d.len(),
        decreases num_sections - k,
    {
        let name_bytes = match r.read_bytes(4) {
            Ok(b) => b,
            Err(e) => {
                proof {
                    assert(8 + 12 * le32_at(d, 4) > d.len()) by (nonlinear_arith)
                        requires 8 + 12 * k + 4 > d.len(), k < le32_at(d, 4);
                }
                return Err(e);
            },
        };
        let name: [u8; 4] = [name_bytes[0], name_bytes[1], name_bytes[2], name_bytes[3]];
        let offset = match r.read_u32_le() {
            Ok(v) => v,
            Err(e) => {
                proof {
                    assert(8 + 12 * le32_at(d, 4) > d.len()) by (nonlinear_arith)
                        requires 8 + 12 * k + 8 > d.len(), k < le32_at(d, 4);
                }
                return Err(e);
            },
        };
        let size = match r.read_u32_le() {
            Ok(v) => v,
            Err(e) => {
                proof {
                    assert(8 + 12 * le32_at(d, 4) > d.len()) by (nonlinear_arith)
                        requires 8 + 12 * k + 12 > d.len(), k < le32_at(d, 4);
                }
                return Err(e);
            },
        };
        proof {
            assert(name@ =~= d.subrange(8 + 12 * k, 12 + 12 * k));
        }
        sections.push(SectionEntry { name, offset, size });
        k = k + 1;
    }
    proof {
        let dir = directory_spec(d)->Ok_0;
        assert(8 + 12 * le32_at(d, 4) <= d.len());
        assert forall|j: int| 0 <= j < dir.len() implies ((#[trigger] sections@[j]).name@, sections@[j].offset, sections@[j].size) == dir[j] by {}
    }
    Ok(sections)
}

/// Index of the first section named `name`.
pub open spec fn find_section_spec(sections: Seq<SectionEntry>, name: Seq<u8>, i: int) -> Option<int>
    decreases sections.len() - i,
{
    if i < 0 || i >= sections.len() {
        None
    } else if sections[i].name@ == name {
        Some(i)
    } else {
        find_section_spec(sections, name, i + 1)
    }
}

/// Find the first section with the given name.
pub fn find_section(sections: &Vec<SectionEntry>, name: [u8; 4]) -> (r: Option<SectionEntry>)
    ensures
        r == (match find_section_spec(sections@, name@, 0) {
            Some(i) => Some(sections@[i]),
            None => None,
        }),
{
    let mut i: usize = 0;
    while i < sections.len()
        invariant
            i <= sections@.len(),
            find_section_spec(sections@, name@, 0) == find_section_spec(sections@, name@, i as int),
        decreases sections@.len() - i,
    {
        let e = sections[i];
        let same = e.name[0] == name[0] && e.name[1] == name[1] && e.name[2] == name[2] && e.name[3] == name[3];
        proof {
            if same {
                assert(e.name@ =~= name@);
            } else if e.name@ == name@ {
                assert(e.name@[0] == name@[0] && e.name@[1] == name@[1] && e.name@[2] == name@[2] && e.name@[3] == name@[3]);
            }
        }
        if same {
            return Some(e);
        }
        i = i + 1;
    }
    None
}

// ---------------------------------------------------------------------------
// Parameter definitions
// ---------------------------------------------------------------------------

/// A machine parameter definition.
pub struct BmxParam {
    /// Parameter type (a word for `PT_WORD`, a byte otherwise)
    pub param_type: u8,
    /// Display name
    pub name: String,
    /// Minimum value
    pub min: i32,
    /// Maximum value
    pub max: i32,
    /// Value meaning "no change"
    pub no_value: i32,
    /// Flags
    pub flags: i32,
    /// Default value
    pub default: i32,
}

/// The global and per-track parameters of a machine.
pub struct BmxParaDef {
    /// Parameters of the machine as a whole
    pub global_params: Vec<BmxParam>,
    /// Parameters of each track
    pub track_params: Vec<BmxParam>,
}

/// Bytes a parameter of the given type takes in a row.
pub open spec fn param_size_spec(param_type: u8) -> int {
    if param_type == PT_WORD { 2 } else { 1 }
}

/// Bytes a row of the given parameters takes.
pub open spec fn params_size(params: Seq<BmxParam>) -> int
    decreases params.len(),
{
    if params.len() == 0 { 0 } else { params_size(params.drop_last()) + param_size_spec(params.last().param_type) }
}

fn param_byte_size(param_type: u8) -> (r: usize)
    ensures
        r == param_size_spec(param_type),
{
    if param_type == PT_WORD { 2 } else { 1 }
}

/// Bytes per row of a parameter list, saturating at `usize::MAX`.
fn params_byte_size(params: &Vec<BmxParam>) -> (r: usize)
    ensures
        r == (if params_size(params@) <= usize::MAX { params_size(params@) } else { usize::MAX as int }),
{
    let mut total: usize = 0;
    let mut i: usize = 0;
    proof {
        assert(params@.take(0) =~= Seq::<BmxParam>::empty());
    }
    while i < params.len()
        invariant
            i <= params@.len(),
            total == (if params_size(params@.take(i as int)) <= usize::MAX { params_size(params@.take(i as int)) } else { usize::MAX as int }),
        decreases params@.len() - i,
    {
        proof {
            assert(params@.take(i + 1).drop_last() =~= params@.take(i as int));
            lemma_params_size_nonneg(params@.take(i as int));
        }
        total = total.saturating_add(param_byte_size(params[i].param_type));
        i = i + 1;
    }
    proof {
        assert(params@.take(i as int) =~= params@);
    }
    total
}

proof fn lemma_params_size_nonneg(params: Seq<BmxParam>)
    ensures
        params_size(params) >= 0,
    decreases params.len(),
{
    if params.len() > 0 {
        lemma_params_size_nonneg(params.drop_last());
    }
}

impl BmxParaDef {
    /// Total bytes per row of global parameter state (saturating).
    pub fn global_byte_size(&self) -> (r: usize)
        ensures
            r == (if params_size(self.global_params@) <= usize::MAX { params_size(self.global_params@) } else { usize::MAX as int }),
    {
        params_byte_size(&self.global_params)
    }

    /// Total bytes per row of track parameter state (saturating).
    pub fn track_byte_size(&self) -> (r: usize)
        ensures
            r == (if params_size(self.track_params@) <= usize::MAX { params_size(self.track_params@) } else { usize::MAX as int }),
    {
        params_byte_size(&self.track_params)
    }
}

/// Where the parameter definition at `pos` ends: a type byte, a
/// zero-terminated name, then minimum, maximum, no-value, flags and default
/// words.
pub open spec fn param_def_end(d: Seq<u8>, pos: int) -> int {
    after_string(d, pos + 1) + 20
}

/// The `k` parameter definitions from `pos`: where each starts, and where
/// they end; or the error reading them gives.
pub open spec fn param_defs_at(d: Seq<u8>, pos: int, k: nat) -> Result<(Seq<int>, int), FormatError>
    decreases k,
{
    if k == 0 {
        Ok((Seq::empty(), pos))
    } else if pos + 1 > d.len() || param_def_end(d, pos) > d.len() {
        Err(FormatError::UnexpectedEof)
    } else {
        match param_defs_at(d, param_def_end(d, pos), (k - 1) as nat) {
            Ok((rest, end)) => Ok((seq![pos] + rest, end)),
            Err(e) => Err(e),
        }
    }
}

/// Parameter `p` is the definition at `pos`.
pub open spec fn param_def_ok(p: BmxParam, d: Seq<u8>, pos: int) -> bool {
    let q = after_string(d, pos + 1);
    &&& p.param_type == d[pos]
    &&& p.name@ == lossy_text(d.subrange(pos + 1, string_end(d, pos + 1)))
    &&& p.min == (le32_at(d, q) as u32) as i32
    &&& p.max == (le32_at(d, q + 4) as u32) as i32
    &&& p.no_value == (le32_at(d, q + 8) as u32) as i32
    &&& p.flags == (le32_at(d, q + 12) as u32) as i32
    &&& p.default == (le32_at(d, q + 16) as u32) as i32
}

/// Bytes per tick of the parameter definitions that start at `starts`.
pub open spec fn param_defs_size(d: Seq<u8>, starts: Seq<int>) -> int
    decreases starts.len(),
{
    if starts.len() == 0 { 0 } else { param_defs_size(d, starts.drop_last()) + param_size_spec(d[starts.last()]) }
}

proof fn lemma_param_defs_len(d: Seq<u8>, pos: int, k: nat)
    ensures
        param_defs_at(d, pos, k) matches Ok((starts, _)) ==> starts.len() == k,
    decreases k,
{
    if k > 0 && !(pos + 1 > d.len() || param_def_end(d, pos) > d.len()) {
        lemma_param_defs_len(d, param_def_end(d, pos), (k - 1) as nat);
    }
}

proof fn lemma_params_size_matches(params: Seq<BmxParam>, d: Seq<u8>, starts: Seq<int>)
    requires
        params.len() == starts.len(),
        forall|i: int| 0 <= i < params.len() ==> #[trigger] params[i].param_type == d[starts[i]],
    ensures
        params_size(params) == param_defs_size(d, starts),
    decreases params.len(),
{
    if params.len() > 0 {
        let n = params.len() - 1;
        assert forall|i: int| 0 <= i < params.drop_last().len() implies
            #[trigger] params.drop_last()[i].param_type == d[starts.drop_last()[i]] by {
            assert(params.drop_last()[i] == params[i]);
            assert(starts.drop_last()[i] == starts[i]);
        }
        lemma_params_size_matches(params.drop_last(), d, starts.drop_last());
        assert(params[n].param_type == d[starts[n]]);
    }
}

fn read_param_defs(r: &mut BmxReader, count: usize) -> (res: Result<Vec<BmxParam>, FormatError>)
    requires
        old(r).position() <= old(r).bytes().len(),
    ensures
        final(r).bytes() == old(r).bytes(),
        final(r).position() <= final(r).bytes().len(),
        res matches Ok(v) ==> v@.len() == count,
        match param_defs_at(old(r).bytes(), old(r).position(), count as nat) {
            Ok((starts, end)) => res matches Ok(v) && final(r).position() == end
                && forall|i: int| 0 <= i < count ==> param_def_ok(#[trigger] v@[i], old(r).bytes(), starts[i]),
            Err(e) => res == Err::<Vec<BmxParam>, FormatError>(e),
        },
{
    let ghost d = r.bytes();
    let ghost target = param_defs_at(d, r.position(), count as nat);
    let ghost starts: Seq<int> = Seq::empty();
    proof {
        match target {
            Ok((v, e)) => { assert(starts + v =~= v); },
            Err(_) => {},
        }
    }
    let mut params: Vec<BmxParam> = Vec::new();
    let mut i: usize = 0;
    while i < count
        invariant
            r.bytes() == d,
            d == old(r).bytes(),
            r.position() <= r.bytes().len(),
            i <= count,
            params@.len() == i,
            starts.len() == i,
            target == param_defs_at(d, old(r).position(), count as nat),
            target == (match param_defs_at(d, r.position(), (count - i) as nat) {
                Ok((rest, end)) => Ok((starts + rest, end)),
                Err(e) => Err(e),
            }),
            forall|k: int| 0 <= k < i ==> param_def_ok(#[trigger] params@[k], d, starts[k]),
        decreases count - i,
    {
        let ghost pos = r.position();
        let ghost left = (count - i) as nat;
        let param_type = match r.read_u8() {
            Ok(v) => v,
            Err(e) => return Err(e),
        };
        let name = match r.read_null_string() {
            Ok(v) => v,
            Err(e) => return Err(e),
        };
        let min = match r.read_i32_le() {
            Ok(v) => v,
            Err(e) => return Err(e),
        };
        let max = match r.read_i32_le() {
            Ok(v) => v,
            Err(e) => return Err(e),
        };
        let no_value = match r.read_i32_le() {
            Ok(v) => v,
            Err(e) => return Err(e),
        };
        let flags = match r.read_i32_le() {
            Ok(v) => v,
            Err(e) => return Err(e),
        };
        let default = match r.read_i32_le() {
            Ok(v) => v,
            Err(e) => return Err(e),
        };
        let ghost params0 = params@;
        params.push(BmxParam { param_type, name, min, max, no_value, flags, default });
        proof {
            assert(param_def_end(d, pos) == r.position());
            let starts1 = starts.push(pos);
            match param_defs_at(d, r.position(), (left - 1) as nat) {
                Ok((rest, end)) => {
                    assert(starts + (seq![pos] + rest) =~= starts1 + rest);
                },
                Err(_) => {},
            }
            assert forall|k: int| 0 <= k < i + 1 implies param_def_ok(#[trigger] params@[k], d, starts1[k]) by {
                if k < i {
                    assert(params@[k] == params0[k]);
                    assert(starts1[k] == starts[k]);
                }
            }
            starts = starts1;
        }
        i = i + 1;
    }
    proof {
        assert(starts + Seq::<int>::empty() =~= starts);
    }
    Ok(params)
}

/// The parameter definitions of a machine in the parameter section at
/// `pos`: a zero-terminated name and long name, the global and track
/// parameter counts, then the global and the track definitions. Where each
/// global and each track definition starts, and where the record ends; or
/// the error reading it gives.
pub open spec fn para_record(d: Seq<u8>, pos: int) -> Result<(Seq<int>, Seq<int>, int), FormatError> {
    let p2 = after_string(d, after_string(d, pos));
    if p2 + 8 > d.len() {
        Err(FormatError::UnexpectedEof)
    } else {
        match param_defs_at(d, p2 + 8, le32_at(d, p2)) {
            Err(e) => Err(e),
            Ok((gs, e1)) => match param_defs_at(d, e1, le32_at(d, p2 + 4)) {
                Err(e) => Err(e),
                Ok((ts, e2)) => Ok((gs, ts, e2)),
            },
        }
    }
}

/// The records of `k` machines from `pos` in the parameter section, and the
/// position after them; or the error reading them gives.
pub open spec fn para_records(d: Seq<u8>, pos: int, k: nat) -> Result<(Seq<(Seq<int>, Seq<int>)>, int), FormatError>
    decreases k,
{
    if k == 0 {
        Ok((Seq::empty(), pos))
    } else {
        match para_record(d, pos) {
            Err(e) => Err(e),
            Ok((gs, ts, end)) => match para_records(d, end, (k - 1) as nat) {
                Ok((rest, last)) => Ok((seq![(gs, ts)] + rest, last)),
                Err(e) => Err(e),
            },
        }
    }
}

/// The parameter section at `off`: a machine count, then per machine its
/// parameter definitions.
pub open spec fn para_section(d: Seq<u8>, off: int) -> Result<Seq<(Seq<int>, Seq<int>)>, FormatError> {
    if off + 4 > d.len() {
        Err(FormatError::UnexpectedEof)
    } else {
        match para_records(d, off + 4, le32_at(d, off)) {
            Ok((v, _)) => Ok(v),
            Err(e) => Err(e),
        }
    }
}

/// Global and per-track bytes per tick of each machine of the parameter
/// records `recs`.
pub open spec fn para_record_sizes(d: Seq<u8>, recs: Seq<(Seq<int>, Seq<int>)>) -> Seq<(int, int)> {
    recs.map_values(|rec: (Seq<int>, Seq<int>)| (param_defs_size(d, rec.0), param_defs_size(d, rec.1)))
}

/// The parameter definitions of one machine of the parameter records.
pub open spec fn para_def_ok(pd: BmxParaDef, d: Seq<u8>, rec: (Seq<int>, Seq<int>)) -> bool {
    &&& pd.global_params@.len() == rec.0.len()
    &&& pd.track_params@.len() == rec.1.len()
    &&& forall|i: int| 0 <= i < rec.0.len() ==> param_def_ok(#[trigger] pd.global_params@[i], d, rec.0[i])
    &&& forall|i: int| 0 <= i < rec.1.len() ==> param_def_ok(#[trigger] pd.track_params@[i], d, rec.1[i])
}

/// Read the parameter section: per machine its names and its global and
/// track parameter definitions.
fn parse_para(r: &mut BmxReader, entry: &SectionEntry) -> (res: Result<Vec<BmxParaDef>, FormatError>)
    ensures
        final(r).bytes() == old(r).bytes(),
        match para_section(old(r).bytes(), entry.offset as int) {
            Ok(recs) => res matches Ok(defs) && defs@.len() == recs.len()
                && (forall|i: int| 0 <= i < recs.len() ==> para_def_ok(#[trigger] defs@[i], old(r).bytes(), recs[i]))
                && para_view(Some(defs)) == Some(para_record_sizes(old(r).bytes(), recs)),
            Err(e) => res == Err::<Vec<BmxParaDef>, FormatError>(e),
        },
{
    let ghost d = r.bytes();
    r.seek(entry.offset as usize);
    let num_machines = match r.read_u32_le() {
        Ok(n) => n as usize,
        Err(e) => return Err(e),
    };
    let ghost target = para_records(d, entry.offset as int + 4, num_machines as nat);
    let ghost recs: Seq<(Seq<int>, Seq<int>)> = Seq::empty();
    proof {
        match target {
            Ok((v, e)) => { assert(recs + v =~= v); },
            Err(_) => {},
        }
    }
    let mut defs: Vec<BmxParaDef> = Vec::new();
    let mut i: usize = 0;
    while i < num_machines
        invariant
            r.bytes() == d,
            d == old(r).bytes(),
            r.position() <= r.bytes().len(),
            i <= num_machines,
            defs@.len() == i,
            recs.len() == i,
            target == para_records(d, entry.offset as int + 4, num_machines as nat),
            entry.offset as int + 4 <= d.len(),
            num_machines == le32_at(d, entry.offset as int),
            target == (match para_records(d, r.position(), (num_machines - i) as nat) {
                Ok((rest, end)) => Ok((recs + rest, end)),
                Err(e) => Err(e),
            }),
            forall|k: int| 0 <= k < i ==> para_def_ok(#[trigger] defs@[k], d, recs[k]),
        decreases num_machines - i,
    {
        let ghost pos = r.position();
        let ghost left = (num_machines - i) as nat;
        let _name = match r.read_null_string() {
            Ok(v) => v,
            Err(e) => return Err(e),
        };
        let _long_name = match r.read_null_string() {
            Ok(v) => v,
            Err(e) => return Err(e),
        };
        let num_global = match r.read_u32_le() {
            Ok(n) => n as usize,
            Err(e) => return Err(e),
        };
        let num_track = match r.read_u32_le() {
            Ok(n) => n as usize,
            Err(e) => return Err(e),
        };
        let global_params = match read_param_defs(r, num_global) {
            Ok(v) => v,
            Err(e) => return Err(e),
        };
        let track_params = match read_param_defs(r, num_track) {
            Ok(v) => v,
            Err(e) => return Err(e),
        };
        let ghost p2 = after_string(d, after_string(d, pos));
        let ghost gr = param_defs_at(d, p2 + 8, num_global as nat)->Ok_0;
        let ghost tr = param_defs_at(d, gr.1, num_track as nat)->Ok_0;
        let ghost rec = (gr.0, tr.0);
        let ghost defs0 = defs@;
        let ghost gp = global_params@;
        let ghost tp = track_params@;
        proof {
            lemma_param_defs_len(d, p2 + 8, num_global as nat);
            lemma_param_defs_len(d, gr.1, num_track as nat);
            assert(gp.len() == rec.0.len());
            assert(tp.len() == rec.1.len());
            assert forall|j: int| 0 <= j < rec.0.len() implies param_def_ok(#[trigger] gp[j], d, rec.0[j]) by {}
            assert forall|j: int| 0 <= j < rec.1.len() implies param_def_ok(#[trigger] tp[j], d, rec.1[j]) by {}
        }
        defs.push(BmxParaDef { global_params, track_params });
        proof {
            assert(defs@[i as int].global_params@ == gp);
            assert(defs@[i as int].track_params@ == tp);
            assert(para_def_ok(defs@[i as int], d, rec));
            let recs1 = recs.push(rec);
            assert(para_record(d, pos) == Ok::<(Seq<int>, Seq<int>, int), FormatError>((rec.0, rec.1, r.position())));
            match para_records(d, r.position(), (left - 1) as nat) {
                Ok((rest, end)) => {
                    assert(recs + (seq![rec] + rest) =~= recs1 + rest);
                },
                Err(_) => {},
            }
            assert forall|k: int| 0 <= k < i + 1 implies para_def_ok(#[trigger] defs@[k], d, recs1[k]) by {
                if k < i {
                    assert(defs@[k] == defs0[k]);
                    assert(recs1[k] == recs[k]);
                }
            }
            recs = recs1;
        }
        i = i + 1;
    }
    proof {
        assert(recs + Seq::<(Seq<int>, Seq<int>)>::empty() =~= recs);
        assert forall|k: int| 0 <= k < recs.len() implies
            (params_size((#[trigger] defs@[k]).global_params@), params_size(defs@[k].track_params@))
            == para_record_sizes(d, recs)[k] by {
            let pd = defs@[k];
            assert(para_def_ok(pd, d, recs[k]));
            assert forall|j: int| 0 <= j < pd.global_params@.len() implies
                #[trigger] pd.global_params@[j].param_type == d[recs[k].0[j]] by {
                assert(param_def_ok(pd.global_params@[j], d, recs[k].0[j]));
            }
            assert forall|j: int| 0 <= j < pd.track_params@.len() implies
                #[trigger] pd.track_params@[j].param_type == d[recs[k].1[j]] by {
                assert(param_def_ok(pd.track_params@[j], d, recs[k].1[j]));
            }
            lemma_params_size_matches(pd.global_params@, d, recs[k].0);
            lemma_params_size_matches(pd.track_params@, d, recs[k].1);
        }
        assert(defs@.map_values(|pd: BmxParaDef| (params_size(pd.global_params@), params_size(pd.track_params@)))
            =~= para_record_sizes(d, recs));
    }
    Ok(defs)
}

fn word_param(name: &str, min: i32, max: i32, no_value: i32, default: i32) -> (r: BmxParam)
    ensures
        r.param_type == PT_WORD,
{
    BmxParam { param_type: PT_WORD, name: name.to_owned(), min, max, no_value, flags: 2, default }
}

/// The master's parameters when the file has no parameter section: volume
/// and tempo words, ticks per beat byte.
fn master_para_def() -> (r: BmxParaDef)
    ensures
        params_size(r.global_params@) == 5,
        r.track_params@.len() == 0,
{
    let mut global_params: Vec<BmxParam> = Vec::new();
    let ghost g0 = global_params@;
    global_params.push(word_param("Volume", 0, 0x4000, 0xFFFF, 0));
    let ghost g1 = global_params@;
    global_params.push(word_param("BPM", 0x10, 0x200, 0xFFFF, 126));
    let ghost g2 = global_params@;
    global_params.push(BmxParam { param_type: PT_BYTE, name: "TPB".to_owned(), min: 1, max: 32, no_value: 0xFF, flags: 2, default: 4 });
    proof {
        let g = global_params@;
        assert(g1.drop_last() =~= g0);
        assert(g2.drop_last() =~= g1);
        assert(g.drop_last() =~= g2);
        assert(params_size(g0) == 0);
        assert(g1.last().param_type == PT_WORD);
        assert(params_size(g1) == 2);
        assert(params_size(g2) == 4);
    }
    BmxParaDef { global_params, track_params: Vec::new() }
}

/// A parameter name: `prefix` followed by the decimal digits of `i`.
fn numbered_name(prefix: &str, i: usize) -> (r: String)
    ensures
        r@ == prefix@ + crate::names::decimal_chars(i as nat),
{
    prefix.to_owned().concat(crate::names::decimal_text(i as u64).as_str())
}

fn byte_params(prefix: &str, count: usize) -> (r: Vec<BmxParam>)
    ensures
        r@.len() == count,
        params_size(r@) == count,
{
    let mut params: Vec<BmxParam> = Vec::new();
    let mut i: usize = 0;
    while i < count
        invariant
            i <= count,
            params@.len() == i,
            params_size(params@) == i,
        decreases count - i,
    {
        let ghost before = params@;
        params.push(BmxParam { param_type: PT_BYTE, name: numbered_name(prefix, i), min: 0, max: 255, no_value: 0xFF, flags: 0, default: 0 });
        proof {
            assert(params@.drop_last() =~= before);
        }
        i = i + 1;
    }
    params
}

/// Build a parameter definition from known byte sizes (all byte parameters).
fn synthetic_para_def(global_bytes: usize, track_bytes: usize) -> (r: BmxParaDef)
    ensures
        params_size(r.global_params@) == global_bytes,
        params_size(r.track_params@) == track_bytes,
{
    BmxParaDef { global_params: byte_params("G", global_bytes), track_params: byte_params("T", track_bytes) }
}

fn copy_params(params: &Vec<BmxParam>) -> (r: Vec<BmxParam>)
    ensures
        r@.len() == params@.len(),
        params_size(r@) == params_size(params@),
{
    let mut out: Vec<BmxParam> = Vec::new();
    let mut i: usize = 0;
    proof {
        assert(params@.take(0) =~= Seq::<BmxParam>::empty());
    }
    while i < params.len()
        invariant
            i <= params@.len(),
            out@.len() == i,
            params_size(out@) == params_size(params@.take(i as int)),
        decreases params@.len() - i,
    {
        let p = &params[i];
        let ghost before = out@;
        out.push(BmxParam {
            param_type: p.param_type,
            name: p.name.clone(),
            min: p.min,
            max: p.max,
            no_value: p.no_value,
            flags: p.flags,
            default: p.default,
        });
        proof {
            assert(out@.drop_last() =~= before);
            assert(params@.take(i + 1).drop_last() =~= params@.take(i as int));
        }
        i = i + 1;
    }
    proof {
        assert(params@.take(i as int) =~= params@);
    }
    out
}

/// The characters of a DLL name, if any.
pub open spec fn dll_view(dll: Option<String>) -> Option<Seq<char>> {
    match dll {
        Some(s) => Some(s@),
        None => None,
    }
}

/// Global and per-track bytes per tick of each machine of a parameter
/// section, if any.
pub open spec fn para_view(defs: Option<Vec<BmxParaDef>>) -> Option<Seq<(int, int)>> {
    match defs {
        Some(v) => Some(v@.map_values(|pd: BmxParaDef| (params_size(pd.global_params@), params_size(pd.track_params@)))),
        None => None,
    }
}

/// Global and per-track bytes per tick of machine `index`: from the
/// parameter section when it describes the machine, else five global bytes
/// for the master, the known sizes of its DLL, or none.
pub open spec fn para_sizes(machine_type: u8, dll: Option<Seq<char>>, defs: Option<Seq<(int, int)>>, index: int) -> (int, int) {
    if defs matches Some(ds) && 0 <= index < ds.len() {
        defs->Some_0[index]
    } else if machine_type == 0 {
        (5, 0)
    } else if dll matches Some(n) && known_sizes_spec(n) is Some {
        (known_sizes_spec(dll->Some_0)->Some_0.0 as int, known_sizes_spec(dll->Some_0)->Some_0.1 as int)
    } else {
        (0, 0)
    }
}

/// Resolve the parameter definition of machine `index`: from the parameter
/// section if it has one, else the master's for the master, the known sizes
/// of its DLL, or nothing.
fn resolve_para_def(machine_type: u8, dll_name: &Option<String>, para_defs: &Option<Vec<BmxParaDef>>, index: usize) -> (r: BmxParaDef)
    ensures
        params_size(r.global_params@) == para_sizes(machine_type, dll_view(*dll_name), para_view(*para_defs), index as int).0,
        params_size(r.track_params@) == para_sizes(machine_type, dll_view(*dll_name), para_view(*para_defs), index as int).1,
{
    match para_defs {
        Some(defs) => {
            if index < defs.len() {
                let d = &defs[index];
                return BmxParaDef { global_params: copy_params(&d.global_params), track_params: copy_params(&d.track_params) };
            }
        },
        None => {},
    }
    if machine_type == 0 {
        return master_para_def();
    }
    match dll_name {
        Some(dll) => match known_machine_byte_sizes(dll.as_str()) {
            Some((gb, tb)) => return synthetic_para_def(gb, tb),
            None => {},
        },
        None => {},
    }
    BmxParaDef { global_params: Vec::new(), track_params: Vec::new() }
}

// ---------------------------------------------------------------------------
// Machines
// ---------------------------------------------------------------------------

/// `a * b`, or `usize::MAX` where the product does not fit.
fn sat_mul(a: usize, b: usize) -> (r: usize)
    ensures
        r == (if a * b > usize::MAX { usize::MAX as int } else { a * b }),
{
    if a != 0 && b > usize::MAX / a {
        proof {
            assert(a * b > usize::MAX) by (nonlinear_arith)
                requires a > 0, b > usize::MAX / a;
        }
        usize::MAX
    } else {
        proof {
            assert(a * b <= usize::MAX) by (nonlinear_arith)
                requires a == 0 || b <= usize::MAX / a;
        }
        a * b
    }
}

/// A machine of the song.
pub struct BmxMachine {
    /// Machine name
    pub name: String,
    /// 0 master, 1 generator, 2 effect
    pub machine_type: u8,
    /// DLL the machine comes from (not for the master)
    pub dll_name: Option<String>,
    /// Graph node of the machine
    pub node_id: NodeId,
    /// Wires into the machine
    pub num_inputs: u16,
    /// The machine is a tracker (cell-based patterns)
    pub is_tracker: bool,
    /// Tracks of the machine's patterns
    pub num_tracks: u16,
    /// First tracker channel of a tracker machine
    pub base_channel: u8,
}

/// Tempo settings of the master machine.
#[derive(Clone, Copy, Debug)]
pub struct MasterParams {
    /// Beats per minute
    pub bpm: u16,
    /// Ticks per beat
    pub tpb: u8,
}

/// What reading the machines gives: the machines, their parameter
/// definitions, the master's tempo, and the number of tracker channels.
pub struct MachineSection {
    /// The machines, in file order
    pub machines: Vec<BmxMachine>,
    /// Parameter definitions, one per machine
    pub para_defs: Vec<BmxParaDef>,
    /// Tempo of the master
    pub master: MasterParams,
    /// Tracker channels of all tracker machines
    pub num_channels: u8,
}

/// Where reading a zero-terminated string from `pos` stops: after its
/// terminator, or at the end of the data.
pub open spec fn after_string(d: Seq<u8>, pos: int) -> int {
    if string_end(d, pos) < d.len() { string_end(d, pos) + 1 } else { string_end(d, pos) }
}

/// Where `k` attributes from `pos` end, each a zero-terminated name and a
/// 32-bit value; or the error reading them gives.
pub open spec fn attrs_end(d: Seq<u8>, pos: int, k: nat) -> Result<int, FormatError>
    decreases k,
{
    if k == 0 {
        Ok(pos)
    } else if after_string(d, pos) + 4 > d.len() {
        Err(FormatError::UnexpectedEof)
    } else {
        attrs_end(d, after_string(d, pos) + 4, (k - 1) as nat)
    }
}

/// `x`, or `usize::MAX` where it does not fit.
pub open spec fn sat_usize(x: int) -> int {
    if x <= usize::MAX { x } else { usize::MAX as int }
}

/// The DLL name of the machine record at `pos` whose type is `machine_type`:
/// none for the master.
pub open spec fn record_dll(d: Seq<u8>, pos: int, machine_type: u8) -> Option<Seq<char>> {
    let p2 = after_string(d, pos) + 1;
    if machine_type != 0 { Some(lossy_text(d.subrange(p2, string_end(d, p2)))) } else { None }
}

/// The machine record at `pos`, of machine `index`, read with the parameter
/// definitions `defs`: a zero-terminated name, a type byte, a
/// zero-terminated DLL name (not for the master), an editor position (two
/// floats), machine data (a size word and as many bytes), attributes (a
/// count, then per attribute a zero-terminated name and a value word), the
/// global parameter state (for the master with at least five global bytes:
/// volume and tempo words and a ticks-per-beat byte first), a track count
/// and the track parameter state. Where its name ends, its type, the
/// master's tempo and ticks per beat when read, its track count and where
/// it ends; or the error reading it gives.
pub open spec fn mach_record(d: Seq<u8>, pos: int, index: int, defs: Option<Seq<(int, int)>>)
    -> Result<(int, u8, Option<(u16, u8)>, u16, int), FormatError>
{
    if pos > d.len() {
        Err(FormatError::UnexpectedEof)
    } else {
        let p1 = after_string(d, pos);
        if p1 + 1 > d.len() {
            Err(FormatError::UnexpectedEof)
        } else {
            let machine_type = d[p1];
            let p3 = if machine_type != 0 { after_string(d, p1 + 1) } else { p1 + 1 };
            if p3 + 12 > d.len() {
                Err(FormatError::UnexpectedEof)
            } else {
                let p4 = p3 + 12 + le32_at(d, p3 + 8);
                if p4 > d.len() || p4 + 2 > d.len() {
                    Err(FormatError::UnexpectedEof)
                } else {
                    match attrs_end(d, p4 + 2, le16_at(d, p4)) {
                        Err(e) => Err(e),
                        Ok(p5) => {
                            let sizes = para_sizes(machine_type, record_dll(d, pos, machine_type), defs, index);
                            let gb = sat_usize(sizes.0);
                            let tb = sat_usize(sizes.1);
                            let tempo_read = machine_type == 0 && gb >= 5;
                            let p6 = p5 + gb;
                            if tempo_read && p5 + 5 > d.len() {
                                Err(FormatError::UnexpectedEof)
                            } else if p6 > d.len() || p6 + 2 > d.len() {
                                Err(FormatError::UnexpectedEof)
                            } else {
                                let tracks = le16_at(d, p6) as u16;
                                let p7 = p6 + 2 + sat_prod(tracks as int, tb);
                                if p7 > d.len() {
                                    Err(FormatError::UnexpectedEof)
                                } else {
                                    Ok((
                                        string_end(d, pos),
                                        machine_type,
                                        if tempo_read { Some((le16_at(d, p5 + 2) as u16, d[p5 + 4])) } else { None },
                                        tracks,
                                        p7,
                                    ))
                                }
                            }
                        },
                    }
                }
            }
        }
    }
}

/// The machine record at `pos` is a tracker's: not the master, with a
/// tracker's DLL.
pub open spec fn record_is_tracker(d: Seq<u8>, pos: int, rec: (int, u8, Option<(u16, u8)>, u16, int)) -> bool {
    rec.1 != 0 && is_tracker_dll_spec(record_dll(d, pos, rec.1)->Some_0)
}

/// The records of `k` machines from `pos`, numbered from `index`, when the
/// trackers before them take `channels` channels: each with where it starts,
/// and the position after them; or the error reading them gives. Trackers
/// may take at most 255 channels in all.
pub open spec fn mach_records(d: Seq<u8>, pos: int, k: nat, index: int, defs: Option<Seq<(int, int)>>, channels: int)
    -> Result<(Seq<(int, (int, u8, Option<(u16, u8)>, u16, int))>, int), FormatError>
    decreases k,
{
    if k == 0 {
        Ok((Seq::empty(), pos))
    } else {
        match mach_record(d, pos, index, defs) {
            Err(e) => Err(e),
            Ok(rec) => {
                let add: int = if record_is_tracker(d, pos, rec) { (rec.3 as u8) as int } else { 0 };
                if channels + add > 255 {
                    Err(FormatError::UnsupportedVersion)
                } else {
                    match mach_records(d, rec.4, (k - 1) as nat, index + 1, defs, channels + add) {
                        Ok((rest, end)) => Ok((seq![(pos, rec)] + rest, end)),
                        Err(e) => Err(e),
                    }
                }
            },
        }
    }
}

/// The machine section at `off`: a machine count, then the machine records.
pub open spec fn mach_section(d: Seq<u8>, off: int, defs: Option<Seq<(int, int)>>)
    -> Result<Seq<(int, (int, u8, Option<(u16, u8)>, u16, int))>, FormatError>
{
    if off + 2 > d.len() {
        Err(FormatError::UnexpectedEof)
    } else {
        match mach_records(d, off + 2, le16_at(d, off), 0, defs, 0) {
            Ok((v, _)) => Ok(v),
            Err(e) => Err(e),
        }
    }
}

/// Where the machine records of the section at `off` end, when they read.
pub open spec fn mach_section_end(d: Seq<u8>, off: int, defs: Option<Seq<(int, int)>>) -> int {
    match mach_records(d, off + 2, le16_at(d, off), 0, defs, 0) {
        Ok((_, end)) => end,
        Err(_) => off,
    }
}

/// `prefix` followed by the machine records of `rest`.
pub open spec fn mach_after(
    prefix: Seq<(int, (int, u8, Option<(u16, u8)>, u16, int))>,
    rest: Result<(Seq<(int, (int, u8, Option<(u16, u8)>, u16, int))>, int), FormatError>,
) -> Result<(Seq<(int, (int, u8, Option<(u16, u8)>, u16, int))>, int), FormatError> {
    match rest {
        Ok((v, end)) => Ok((prefix + v, end)),
        Err(e) => Err(e),
    }
}

proof fn lemma_mach_after_assoc(
    a: Seq<(int, (int, u8, Option<(u16, u8)>, u16, int))>,
    b: Seq<(int, (int, u8, Option<(u16, u8)>, u16, int))>,
    x: Result<(Seq<(int, (int, u8, Option<(u16, u8)>, u16, int))>, int), FormatError>,
)
    ensures
        mach_after(a, mach_after(b, x)) == mach_after(a + b, x),
{
    match x {
        Ok((v, e)) => {
            assert(a + (b + v) =~= (a + b) + v);
        },
        Err(_) => {},
    }
}

/// The master's tempo and ticks per beat after the first `k` records: those
/// of the last master record that has them, 126 and 4 otherwise.
pub open spec fn mach_master(recs: Seq<(int, (int, u8, Option<(u16, u8)>, u16, int))>, k: int) -> (u16, u8)
    decreases k,
{
    if k <= 0 {
        (126u16, 4u8)
    } else {
        match recs[k - 1].1.2 {
            Some(t) => t,
            None => mach_master(recs, k - 1),
        }
    }
}

proof fn lemma_mach_master_push(
    recs: Seq<(int, (int, u8, Option<(u16, u8)>, u16, int))>,
    x: (int, (int, u8, Option<(u16, u8)>, u16, int)),
    k: int,
)
    requires
        0 <= k <= recs.len(),
    ensures
        mach_master(recs.push(x), k) == mach_master(recs, k),
    decreases k,
{
    if k > 0 {
        lemma_mach_master_push(recs, x, k - 1);
        assert(recs.push(x)[k - 1] == recs[k - 1]);
    }
}

/// Machine `m` is the one of the record `rec` at `pos`: named by the bytes
/// before its name's end, of the record's type, DLL and track count.
pub open spec fn machine_record_ok(m: BmxMachine, d: Seq<u8>, pos: int, rec: (int, u8, Option<(u16, u8)>, u16, int)) -> bool {
    &&& m.name@ == lossy_text(d.subrange(pos, rec.0))
    &&& m.machine_type == rec.1
    &&& dll_view(m.dll_name) == record_dll(d, pos, rec.1)
    &&& m.num_tracks == rec.3
}

/// Machine `m`, numbered `k`, with parameter definition `pd`, is the one
/// of the record `rec` as to what reading its patterns depends on: whether
/// it is a tracker, and its global and per-track bytes per tick.
pub open spec fn machine_sizes_ok(
    m: BmxMachine,
    pd: BmxParaDef,
    d: Seq<u8>,
    rec: (int, (int, u8, Option<(u16, u8)>, u16, int)),
    defs: Option<Seq<(int, int)>>,
    k: int,
) -> bool {
    let sizes = para_sizes(rec.1.1, record_dll(d, rec.0, rec.1.1), defs, k);
    &&& m.is_tracker == record_is_tracker(d, rec.0, rec.1)
    &&& params_size(pd.global_params@) == sizes.0
    &&& params_size(pd.track_params@) == sizes.1
}

/// Machines among the first `k` that are not the master: each of them gets
/// a graph node after the master's.
pub open spec fn nonmaster_before(ms: Seq<BmxMachine>, k: int) -> nat
    decreases k,
{
    if k <= 0 {
        0
    } else {
        nonmaster_before(ms, k - 1) + if ms[k - 1].machine_type != 0 { 1nat } else { 0nat }
    }
}

/// Tracker channels taken by the tracker machines among the first `k`: each
/// tracker takes one per track, counted in a byte.
pub open spec fn channels_before(ms: Seq<BmxMachine>, k: int) -> nat
    decreases k,
{
    if k <= 0 {
        0
    } else {
        channels_before(ms, k - 1) + if ms[k - 1].is_tracker { (ms[k - 1].num_tracks as u8) as nat } else { 0nat }
    }
}

/// `n` is a Buzz machine node named `name`.
pub open spec fn buzz_node_named(n: crate::graph::Node, name: Seq<char>) -> bool {
    n.node_type matches NodeType::BuzzMachine { machine_name } && machine_name@ == name
}

/// Machine `k` of `ms` and the node it got in `g`: the master has no DLL
/// and stands for node 0; any other machine has a DLL, is a tracker exactly
/// when that DLL is a tracker's, and has the next node after those of the
/// machines before it: a "Tracker" node without parameters for a tracker,
/// whose channels follow those of the trackers before it, a node named after
/// the machine otherwise.
pub open spec fn machine_node_ok(g: AudioGraph, ms: Seq<BmxMachine>, k: int) -> bool {
    let m = ms[k];
    let idx: int = 1 + nonmaster_before(ms, k) as int;
    &&& (m.machine_type == 0) == (m.dll_name is None)
    &&& m.is_tracker == (m.dll_name matches Some(dll) && is_tracker_dll_spec(dll@))
    &&& m.machine_type == 0 ==> m.node_id == 0 && m.base_channel == 0
    &&& m.machine_type != 0 ==> {
        &&& m.node_id == idx
        &&& g.nodes@[idx].id == idx
        &&& m.is_tracker ==> buzz_node_named(g.nodes@[idx], "Tracker"@) && g.nodes@[idx].parameters@.len() == 0
            && m.base_channel == channels_before(ms, k)
        &&& !m.is_tracker ==> buzz_node_named(g.nodes@[idx], m.name@) && m.base_channel == 0
    }
}

/// The nodes of `g` after the master are those of the machines `ms`, in order.
pub open spec fn machine_nodes_ok(g: AudioGraph, ms: Seq<BmxMachine>) -> bool {
    &&& g.nodes@.len() == 1 + nonmaster_before(ms, ms.len() as int)
    &&& forall|k: int| 0 <= k < ms.len() ==> #[trigger] machine_node_ok(g, ms, k)
}

/// The parameters of a node made from the global parameter definitions
/// `defs`: one per definition, numbered in order, at its default.
pub open spec fn params_from_defs(ps: Seq<Parameter>, defs: Seq<BmxParam>) -> bool {
    &&& ps.len() == defs.len()
    &&& forall|j: int| 0 <= j < ps.len() ==> {
        &&& (#[trigger] ps[j]).id == j as u16
        &&& ps[j].min == defs[j].min
        &&& ps[j].max == defs[j].max
        &&& ps[j].default == defs[j].default
        &&& ps[j].value == defs[j].default
    }
}

/// The node of a machine other than the master or a tracker has the
/// machine's global parameters.
pub open spec fn machine_params_ok(g: AudioGraph, ms: Seq<BmxMachine>, pds: Seq<BmxParaDef>, k: int) -> bool {
    ms[k].machine_type != 0 && !ms[k].is_tracker ==>
        params_from_defs(g.nodes@[1 + nonmaster_before(ms, k) as int].parameters@, pds[k].global_params@)
}

proof fn lemma_before_push(ms: Seq<BmxMachine>, m: BmxMachine, k: int)
    requires
        0 <= k <= ms.len(),
    ensures
        nonmaster_before(ms.push(m), k) == nonmaster_before(ms, k),
        channels_before(ms.push(m), k) == channels_before(ms, k),
    decreases k,
{
    if k > 0 {
        lemma_before_push(ms, m, k - 1);
        assert(ms.push(m)[k - 1] == ms[k - 1]);
    }
}

proof fn lemma_nonmaster_mono(ms: Seq<BmxMachine>, a: int, b: int)
    requires
        0 <= a <= b,
    ensures
        nonmaster_before(ms, a) <= nonmaster_before(ms, b),
    decreases b - a,
{
    if a < b {
        lemma_nonmaster_mono(ms, a, b - 1);
    }
}

/// Adding the next machine, with its node after all earlier nodes, keeps
/// what holds of the machines before it.
proof fn lemma_machines_extend(g0: AudioGraph, g: AudioGraph, ms: Seq<BmxMachine>, pds: Seq<BmxParaDef>, m: BmxMachine, pd: BmxParaDef)
    requires
        machine_nodes_ok(g0, ms),
        forall|k: int| 0 <= k < ms.len() ==> #[trigger] machine_params_ok(g0, ms, pds, k),
        pds.len() == ms.len(),
        g.nodes@.len() >= g0.nodes@.len(),
        forall|x: int| 0 <= x < g0.nodes@.len() ==> g.nodes@[x] == g0.nodes@[x],
        machine_node_ok(g, ms.push(m), ms.len() as int),
        machine_params_ok(g, ms.push(m), pds.push(pd), ms.len() as int),
        g.nodes@.len() == 1 + nonmaster_before(ms.push(m), ms.len() + 1 as int),
    ensures
        machine_nodes_ok(g, ms.push(m)),
        forall|k: int| 0 <= k < ms.len() + 1 ==> #[trigger] machine_params_ok(g, ms.push(m), pds.push(pd), k),
{
    let s = ms.push(m);
    assert forall|k: int|
        #![trigger machine_node_ok(g, s, k)]
        #![trigger machine_params_ok(g, s, pds.push(pd), k)]
        0 <= k < s.len() implies machine_node_ok(g, s, k) && machine_params_ok(g, s, pds.push(pd), k) by {
        if k < ms.len() {
            lemma_before_push(ms, m, k);
            lemma_nonmaster_mono(ms, k + 1, ms.len() as int);
            assert(s[k] == ms[k]);
            assert(pds.push(pd)[k] == pds[k]);
            assert(machine_node_ok(g0, ms, k));
            assert(machine_params_ok(g0, ms, pds, k));
            if ms[k].machine_type != 0 {
                let ix = 1 + nonmaster_before(ms, k) as int;
                assert(ix < g0.nodes@.len());
                assert(g.nodes@[ix] == g0.nodes@[ix]);
            }
        }
    }

}

proof fn lemma_nonmaster_bound(ms: Seq<BmxMachine>, k: int)
    requires
        0 <= k,
    ensures
        nonmaster_before(ms, k) <= k,
    decreases k,
{
    if k > 0 {
        lemma_nonmaster_bound(ms, k - 1);
    }
}

/// Read the machine record of machine `index` at the read position.
fn read_machine_record(r: &mut BmxReader, index: usize, para_from_section: &Option<Vec<BmxParaDef>>)
    -> (res: Result<(String, u8, Option<String>, BmxParaDef, Option<(u16, u8)>, u16), FormatError>)
    ensures
        final(r).bytes() == old(r).bytes(),
        match mach_record(old(r).bytes(), old(r).position(), index as int, para_view(*para_from_section)) {
            Ok(rec) => res matches Ok((name, machine_type, dll_name, para, tempo, num_tracks)) && {
                let d = old(r).bytes();
                let pos = old(r).position();
                &&& final(r).position() == rec.4
                &&& name@ == lossy_text(d.subrange(pos, rec.0))
                &&& machine_type == rec.1
                &&& dll_view(dll_name) == record_dll(d, pos, rec.1)
                &&& tempo == rec.2
                &&& num_tracks == rec.3
                &&& params_size(para.global_params@) == para_sizes(rec.1, record_dll(d, pos, rec.1), para_view(*para_from_section), index as int).0
                &&& params_size(para.track_params@) == para_sizes(rec.1, record_dll(d, pos, rec.1), para_view(*para_from_section), index as int).1
            },
            Err(e) => res == Err::<(String, u8, Option<String>, BmxParaDef, Option<(u16, u8)>, u16), FormatError>(e),
        },
{
    let ghost d = r.bytes();
    let ghost pos = r.position();
    if r.pos > r.data.len() {
        return Err(FormatError::UnexpectedEof);
    }
    let name = match r.read_null_string() {
        Ok(v) => v,
        Err(e) => return Err(e),
    };
    let ghost p1 = r.position();
    let machine_type = match r.read_u8() {
        Ok(v) => v,
        Err(e) => return Err(e),
    };
    let dll_name = if machine_type != 0 {
        match r.read_null_string() {
            Ok(v) => Some(v),
            Err(e) => return Err(e),
        }
    } else {
        None
    };
    proof {
        assert(dll_view(dll_name) == record_dll(d, pos, machine_type));
    }
    let ghost p3 = r.position();
    // Position in the editor (two floats), not used
    let _x = match r.read_f32_bits() {
        Ok(v) => v,
        Err(e) => return Err(e),
    };
    let _y = match r.read_f32_bits() {
        Ok(v) => v,
        Err(e) => return Err(e),
    };
    // Skip machine-specific init data
    let data_size = match r.read_u32_le() {
        Ok(v) => v as usize,
        Err(e) => return Err(e),
    };
    match r.skip(data_size) {
        Ok(()) => {},
        Err(e) => return Err(e),
    }
    let ghost p4 = r.position();
    // Skip attributes
    let num_attrs = match r.read_u16_le() {
        Ok(v) => v as usize,
        Err(e) => return Err(e),
    };
    let ghost attrs_target = attrs_end(d, p4 + 2, num_attrs as nat);
    let mut a: usize = 0;
    let mut attr_err: Option<FormatError> = None;
    while a < num_attrs
        invariant_except_break
            attr_err is None,
            r.position() <= d.len(),
            attrs_target == attrs_end(d, r.position(), (num_attrs - a) as nat),
        invariant
            r.bytes() == d,
            d == old(r).bytes(),
            a <= num_attrs,
            attrs_target == attrs_end(d, p4 + 2, num_attrs as nat),
        ensures
            attr_err matches Some(e) ==> attrs_target == Err::<int, FormatError>(e),
            attr_err is None ==> attrs_target == Ok::<int, FormatError>(r.position()) && r.position() <= d.len(),
        decreases num_attrs - a,
    {
        let _attr_name = match r.read_null_string() {
            Ok(v) => v,
            Err(e) => { attr_err = Some(e); break; },
        };
        let _attr_val = match r.read_u32_le() {
            Ok(v) => v,
            Err(e) => { attr_err = Some(e); break; },
        };
        a = a + 1;
    }
    match attr_err {
        Some(e) => return Err(e),
        None => {},
    }
    let ghost p5 = r.position();
    // Resolve param defs and read/skip global param state
    let para = resolve_para_def(machine_type, &dll_name, para_from_section, index);
    let global_bytes = para.global_byte_size();
    let mut tempo: Option<(u16, u8)> = None;
    if machine_type == 0 {
        // Master: volume (u16), bpm (u16), tpb (u8)
        if global_bytes >= 5 {
            let _volume = match r.read_u16_le() {
                Ok(v) => v,
                Err(e) => return Err(e),
            };
            let bpm = match r.read_u16_le() {
                Ok(v) => v,
                Err(e) => return Err(e),
            };
            let tpb = match r.read_u8() {
                Ok(v) => v,
                Err(e) => return Err(e),
            };
            tempo = Some((bpm, tpb));
            match r.skip(global_bytes - 5) {
                Ok(()) => {},
                Err(e) => return Err(e),
            }
        } else {
            match r.skip(global_bytes) {
                Ok(()) => {},
                Err(e) => return Err(e),
            }
        }
    } else {
        match r.skip(global_bytes) {
            Ok(()) => {},
            Err(e) => return Err(e),
        }
    }
    // Skip track param state
    let num_tracks = match r.read_u16_le() {
        Ok(v) => v,
        Err(e) => return Err(e),
    };
    match r.skip(sat_mul(num_tracks as usize, para.track_byte_size())) {
        Ok(()) => {},
        Err(e) => return Err(e),
    }
    Ok((name, machine_type, dll_name, para, tempo, num_tracks))
}

/// Read the machine section, adding a graph node per machine (the master is
/// node 0, a tracker machine a "Tracker" node, any other machine a node with
/// its name and global parameters).
fn parse_mach(
    r: &mut BmxReader,
    entry: &SectionEntry,
    para_from_section: &Option<Vec<BmxParaDef>>,
    graph: &mut AudioGraph,
) -> (res: Result<MachineSection, FormatError>)
    requires
        old(graph).nodes@.len() == 1,
    ensures
        final(r).bytes() == old(r).bytes(),
        res matches Ok(m) ==> {
            &&& m.machines@.len() == m.para_defs@.len()
            &&& m.machines@.len() <= 0xffff
            &&& forall|i: int| 0 <= i < m.machines@.len() ==> (#[trigger] m.machines@[i]).num_inputs == 0
            &&& final(graph).connections@ == old(graph).connections@
            &&& final(graph).nodes@[0] == old(graph).nodes@[0]
            &&& machine_nodes_ok(*final(graph), m.machines@)
            &&& forall|k: int| 0 <= k < m.machines@.len() ==> #[trigger] machine_params_ok(*final(graph), m.machines@, m.para_defs@, k)
            &&& m.num_channels == channels_before(m.machines@, m.machines@.len() as int)
        },
        match mach_section(old(r).bytes(), entry.offset as int, para_view(*para_from_section)) {
            Ok(recs) => res matches Ok(m) && m.machines@.len() == recs.len()
                && (forall|k: int| 0 <= k < recs.len() ==> machine_record_ok(#[trigger] m.machines@[k], old(r).bytes(), recs[k].0, recs[k].1))
                && (m.master.bpm, m.master.tpb) == mach_master(recs, recs.len() as int)
                && (forall|k: int| 0 <= k < recs.len() ==> machine_sizes_ok(#[trigger] m.machines@[k], m.para_defs@[k], old(r).bytes(), recs[k], para_view(*para_from_section), k)),
            Err(e) => res == Err::<MachineSection, FormatError>(e),
        },
        res is Ok ==> final(r).position() == mach_section_end(old(r).bytes(), entry.offset as int, para_view(*para_from_section)),
{
    let ghost d = r.bytes();
    let ghost pv = para_view(*para_from_section);
    r.seek(entry.offset as usize);
    let num_machines = match r.read_u16_le() {
        Ok(n) => n as usize,
        Err(e) => return Err(e),
    };
    let ghost target = mach_records(d, entry.offset as int + 2, num_machines as nat, 0, pv, 0);
    let ghost recs: Seq<(int, (int, u8, Option<(u16, u8)>, u16, int))> = Seq::empty();
    proof {
        match target {
            Ok((v, e)) => { assert(recs + v =~= v); },
            Err(_) => {},
        }
    }
    let mut machines: Vec<BmxMachine> = Vec::new();
    let mut para_defs: Vec<BmxParaDef> = Vec::new();
    let mut next_channel: u8 = 0;
    let mut master_bpm: u16 = 126;
    let mut master_tpb: u8 = 4;
    let mut i: usize = 0;
    while i < num_machines
        invariant
            r.bytes() == old(r).bytes(),
            i <= num_machines,
            num_machines <= 0xffff,
            machines@.len() == i,
            para_defs@.len() == i,
            forall|k: int| 0 <= k < machines@.len() ==> (#[trigger] machines@[k]).num_inputs == 0,
            graph.connections@ == old(graph).connections@,
            graph.nodes@[0] == old(graph).nodes@[0],
            machine_nodes_ok(*graph, machines@),
            forall|k: int| 0 <= k < machines@.len() ==> #[trigger] machine_params_ok(*graph, machines@, para_defs@, k),
            next_channel == channels_before(machines@, i as int),
            d == old(r).bytes(),
            pv == para_view(*para_from_section),
            entry.offset as int + 2 <= d.len(),
            num_machines == le16_at(d, entry.offset as int),
            target == mach_records(d, entry.offset as int + 2, num_machines as nat, 0, pv, 0),
            target == mach_after(recs, mach_records(d, r.position(), (num_machines - i) as nat, i as int, pv, next_channel as int)),
            recs.len() == i,
            forall|k: int| 0 <= k < i ==> machine_record_ok(#[trigger] machines@[k], d, recs[k].0, recs[k].1),
            forall|k: int| 0 <= k < i ==> machine_sizes_ok(#[trigger] machines@[k], para_defs@[k], d, recs[k], pv, k),
            (master_bpm, master_tpb) == mach_master(recs, i as int),
        decreases num_machines - i,
    {
        let ghost pos = r.position();
        let ghost left = (num_machines - i) as nat;
        let (name, machine_type, dll_name, para, tempo, num_tracks) = match read_machine_record(r, i, para_from_section) {
            Ok(m) => m,
            Err(e) => {
                proof { lemma_mach_after_assoc(recs, Seq::empty(), Err(e)); }
                return Err(e);
            },
        };
        let ghost rec = mach_record(d, pos, i as int, pv)->Ok_0;
        match tempo {
            Some((bpm, tpb)) => {
                master_bpm = bpm;
                master_tpb = tpb;
            },
            None => {},
        }
        let is_tracker = match &dll_name {
            Some(dll) => is_tracker_dll(dll.as_str()),
            None => false,
        };
        proof {
            assert(is_tracker == record_is_tracker(d, pos, rec));
        }
        let ghost g0 = *graph;
        let ghost ms0 = machines@;
        let ghost idx: int = 1 + nonmaster_before(ms0, i as int) as int;
        proof {
            lemma_nonmaster_bound(ms0, i as int);
        }
        let mut base_channel: u8 = 0;
        let node_id: NodeId = if machine_type == 0 {
            0
        } else if is_tracker {
            base_channel = next_channel;
            let tracks8 = #[verifier::truncate] (num_tracks as u8);
            if next_channel as u16 + tracks8 as u16 > 255 {
                proof { lemma_mach_after_assoc(recs, Seq::empty(), Err(FormatError::UnsupportedVersion)); }
                return Err(FormatError::UnsupportedVersion);
            }
            next_channel = next_channel + tracks8;
            let id = graph.add_node(NodeType::BuzzMachine { machine_name: "Tracker".to_owned() });
            proof {
                assert(graph.nodes@.subrange(0, g0.nodes@.len() as int)[0] == graph.nodes@[0]);
                assert forall|x: int| 0 <= x < g0.nodes@.len() implies graph.nodes@[x] == g0.nodes@[x] by {
                    assert(graph.nodes@.subrange(0, g0.nodes@.len() as int)[x] == graph.nodes@[x]);
                }
            }
            id
        } else {
            let id = graph.add_node(NodeType::BuzzMachine { machine_name: name.clone() });
            let ghost g1 = *graph;
            proof {
                assert forall|x: int| 0 <= x < g0.nodes@.len() implies g1.nodes@[x] == g0.nodes@[x] by {
                    assert(g1.nodes@.subrange(0, g0.nodes@.len() as int)[x] == g1.nodes@[x]);
                }
            }
            let mut j: usize = 0;
            while j < para.global_params.len()
                invariant
                    j <= para.global_params@.len(),
                    id == idx,
                    idx == g0.nodes@.len(),
                    g1.nodes@.len() == idx + 1,
                    graph.connections@ == g1.connections@,
                    graph.nodes@.len() == g1.nodes@.len(),
                    forall|x: int| 0 <= x < g1.nodes@.len() && x != idx ==> graph.nodes@[x] == g1.nodes@[x],
                    graph.nodes@[idx].id == g1.nodes@[idx].id,
                    graph.nodes@[idx].node_type == g1.nodes@[idx].node_type,
                    graph.nodes@[idx].parameters@.len() == j,
                    forall|y: int| 0 <= y < j ==> {
                        &&& (#[trigger] graph.nodes@[idx].parameters@[y]).id == y as u16
                        &&& graph.nodes@[idx].parameters@[y].min == para.global_params@[y].min
                        &&& graph.nodes@[idx].parameters@[y].max == para.global_params@[y].max
                        &&& graph.nodes@[idx].parameters@[y].default == para.global_params@[y].default
                        &&& graph.nodes@[idx].parameters@[y].value == para.global_params@[y].default
                    },
                decreases para.global_params@.len() - j,
            {
                let p = &para.global_params[j];
                let ghost before = *graph;
                graph.add_parameter(id, Parameter::new(#[verifier::truncate] (j as u16), p.name.as_str(), p.min, p.max, p.default));
                proof {
                    assert forall|y: int| 0 <= y < j + 1 implies {
                        &&& (#[trigger] graph.nodes@[idx].parameters@[y]).id == y as u16
                        &&& graph.nodes@[idx].parameters@[y].min == para.global_params@[y].min
                        &&& graph.nodes@[idx].parameters@[y].max == para.global_params@[y].max
                        &&& graph.nodes@[idx].parameters@[y].default == para.global_params@[y].default
                        &&& graph.nodes@[idx].parameters@[y].value == para.global_params@[y].default
                    } by {
                        if y < j {
                            assert(graph.nodes@[idx].parameters@[y] == before.nodes@[idx].parameters@[y]);
                        }
                    }
                }
                j = j + 1;
            }
            id
        };
        let ghost m = BmxMachine {
            name,
            machine_type,
            dll_name,
            node_id,
            num_inputs: 0,
            is_tracker,
            num_tracks,
            base_channel,
        };
        machines.push(BmxMachine {
            name,
            machine_type,
            dll_name,
            node_id,
            num_inputs: 0,
            is_tracker,
            num_tracks,
            base_channel,
        });
        let ghost pds0 = para_defs@;
        para_defs.push(para);
        proof {
            lemma_before_push(ms0, machines@[i as int], i as int);
            assert(machines@ == ms0.push(machines@[i as int]));
            assert(machine_node_ok(*graph, machines@, i as int));
            assert(machine_params_ok(*graph, machines@, para_defs@, i as int));
            lemma_machines_extend(g0, *graph, ms0, pds0, machines@[i as int], para_defs@[i as int]);
            assert(para_defs@ == pds0.push(para_defs@[i as int]));
            let add: int = if record_is_tracker(d, pos, rec) { (rec.3 as u8) as int } else { 0 };
            assert(mach_records(d, pos, left, i as int, pv, channels_before(ms0, i as int) as int)
                == mach_after(seq![(pos, rec)], mach_records(d, rec.4, (left - 1) as nat, i + 1, pv, channels_before(ms0, i as int) + add)));
            lemma_mach_after_assoc(recs, seq![(pos, rec)], mach_records(d, rec.4, (left - 1) as nat, i + 1, pv, channels_before(ms0, i as int) + add));
            let recs1 = recs.push((pos, rec));
            assert(recs + seq![(pos, rec)] =~= recs1);
            assert forall|k: int| 0 <= k < i + 1 implies machine_record_ok(#[trigger] machines@[k], d, recs1[k].0, recs1[k].1)
                && machine_sizes_ok(machines@[k], para_defs@[k], d, recs1[k], pv, k) by {
                if k < i {
                    assert(machines@[k] == ms0[k]);
                    assert(para_defs@[k] == pds0[k]);
                    assert(recs1[k] == recs[k]);
                }
            }
            lemma_mach_master_push(recs, (pos, rec), i as int);
            assert(mach_master(recs1, i + 1) == (master_bpm, master_tpb));
            recs = recs1;
        }
        i = i + 1;
    }
    proof {
        assert(recs + Seq::<(int, (int, u8, Option<(u16, u8)>, u16, int))>::empty() =~= recs);
        assert(mach_section_end(d, entry.offset as int, pv) == r.position());
    }
    Ok(MachineSection { machines, para_defs, master: MasterParams { bpm: master_bpm, tpb: master_tpb }, num_channels: next_channel })
}

/// Source machine of wire `w` of the connection section at `off`.
pub open spec fn wire_src(d: Seq<u8>, off: int, w: int) -> int {
    le16_at(d, off + 2 + 8 * w) as int
}

/// Destination machine of wire `w` of the connection section at `off`.
pub open spec fn wire_dst(d: Seq<u8>, off: int, w: int) -> int {
    le16_at(d, off + 4 + 8 * w) as int
}

/// Amplitude of wire `w` of the connection section at `off`.
pub open spec fn wire_amp(d: Seq<u8>, off: int, w: int) -> u16 {
    le16_at(d, off + 6 + 8 * w) as u16
}

/// Wire `w` joins two of the `n` machines.
pub open spec fn wire_known(d: Seq<u8>, off: int, n: int, w: int) -> bool {
    wire_src(d, off, w) < n && wire_dst(d, off, w) < n
}

/// The connections the first `w` wires give: one per wire between two
/// known machines, from the source's node to the destination's, with the
/// wire's amplitude as gain.
pub open spec fn wire_conns(d: Seq<u8>, off: int, ms: Seq<BmxMachine>, w: int) -> Seq<Connection>
    decreases w,
{
    if w <= 0 {
        Seq::empty()
    } else if wire_known(d, off, ms.len() as int, w - 1) {
        wire_conns(d, off, ms, w - 1).push(Connection {
            from: ms[wire_src(d, off, w - 1)].node_id,
            to: ms[wire_dst(d, off, w - 1)].node_id,
            from_channel: 0,
            to_channel: 0,
            gain: amplitude_gain_spec(wire_amp(d, off, w - 1)),
        })
    } else {
        wire_conns(d, off, ms, w - 1)
    }
}

/// Wires among the first `w` between two of the `n` machines that lead into
/// machine `k`.
pub open spec fn wire_inputs(d: Seq<u8>, off: int, n: int, k: int, w: int) -> nat
    decreases w,
{
    if w <= 0 {
        0
    } else {
        wire_inputs(d, off, n, k, w - 1) + if wire_known(d, off, n, w - 1) && wire_dst(d, off, w - 1) == k { 1nat } else { 0nat }
    }
}

/// The connection section at `off` lies in the data: its wire count, then
/// eight bytes per wire.
pub open spec fn conn_section_fits(d: Seq<u8>, off: int) -> bool {
    off + 2 <= d.len() && off + 2 + 8 * le16_at(d, off) <= d.len()
}

proof fn lemma_wire_inputs_bound(d: Seq<u8>, off: int, n: int, k: int, w: int)
    requires
        0 <= w,
    ensures
        wire_inputs(d, off, n, k, w) <= w,
    decreases w,
{
    if w > 0 {
        lemma_wire_inputs_bound(d, off, n, k, w - 1);
    }
}

/// Two machine lists that differ at most in their input counts.
pub open spec fn same_but_inputs(a: Seq<BmxMachine>, b: Seq<BmxMachine>) -> bool {
    &&& a.len() == b.len()
    &&& forall|k: int| 0 <= k < a.len() ==> #[trigger] b[k] == (BmxMachine { num_inputs: b[k].num_inputs, ..a[k] })
}

proof fn lemma_counts_same_but_inputs(a: Seq<BmxMachine>, b: Seq<BmxMachine>, k: int)
    requires
        same_but_inputs(a, b),
        0 <= k <= a.len(),
    ensures
        nonmaster_before(a, k) == nonmaster_before(b, k),
        channels_before(a, k) == channels_before(b, k),
    decreases k,
{
    if k > 0 {
        lemma_counts_same_but_inputs(a, b, k - 1);
        assert(b[k - 1] == (BmxMachine { num_inputs: b[k - 1].num_inputs, ..a[k - 1] }));
    }
}

proof fn lemma_wires_same_but_inputs(d: Seq<u8>, off: int, a: Seq<BmxMachine>, b: Seq<BmxMachine>, w: int)
    requires
        same_but_inputs(a, b),
    ensures
        wire_conns(d, off, a, w) == wire_conns(d, off, b, w),
    decreases w,
{
    if w > 0 {
        lemma_wires_same_but_inputs(d, off, a, b, w - 1);
        if wire_known(d, off, a.len() as int, w - 1) {
            let s = wire_src(d, off, w - 1);
            let t = wire_dst(d, off, w - 1);
            assert(b[s] == (BmxMachine { num_inputs: b[s].num_inputs, ..a[s] }));
            assert(b[t] == (BmxMachine { num_inputs: b[t].num_inputs, ..a[t] }));
        }
    }
}

/// Counting inputs keeps the machines' nodes.
proof fn lemma_nodes_same_but_inputs(g: AudioGraph, a: Seq<BmxMachine>, b: Seq<BmxMachine>)
    requires
        machine_nodes_ok(g, a),
        same_but_inputs(a, b),
    ensures
        machine_nodes_ok(g, b),
{
    lemma_counts_same_but_inputs(a, b, a.len() as int);
    assert forall|k: int| 0 <= k < b.len() implies #[trigger] machine_node_ok(g, b, k) by {
        lemma_counts_same_but_inputs(a, b, k);
        assert(machine_node_ok(g, a, k));
        assert(b[k] == (BmxMachine { num_inputs: b[k].num_inputs, ..a[k] }));
    }
}

/// Read the wires between machines, adding a graph connection per wire
/// between known machines, with its amplitude as gain, and counting each
/// machine's inputs.
fn parse_conn(r: &mut BmxReader, entry: &SectionEntry, machines: &mut Vec<BmxMachine>, graph: &mut AudioGraph) -> (res: Result<(), FormatError>)
    requires
        forall|i: int| 0 <= i < old(machines)@.len() ==> (#[trigger] old(machines)@[i]).num_inputs == 0,
    ensures
        final(r).bytes() == old(r).bytes(),
        final(machines)@.len() == old(machines)@.len(),
        res is Ok <==> conn_section_fits(old(r).bytes(), entry.offset as int),
        res is Err ==> res == Err::<(), FormatError>(FormatError::UnexpectedEof),
        res is Ok ==> {
            let d = old(r).bytes();
            let off = entry.offset as int;
            let n = le16_at(d, off) as int;
            &&& final(graph).nodes@ == old(graph).nodes@
            &&& final(graph).connections@ == old(graph).connections@ + wire_conns(d, off, old(machines)@, n)
            &&& forall|k: int| 0 <= k < old(machines)@.len() ==> #[trigger] final(machines)@[k] == (BmxMachine {
                num_inputs: wire_inputs(d, off, old(machines)@.len() as int, k, n) as u16,
                ..old(machines)@[k]
            })
        },
{
    let ghost d = r.bytes();
    let ghost off = entry.offset as int;
    let ghost ms0 = machines@;
    let ghost conns0 = graph.connections@;
    r.seek(entry.offset as usize);
    let num_wires = match r.read_u16_le() {
        Ok(n) => n as usize,
        Err(e) => return Err(e),
    };
    let mut w: usize = 0;
    while w < num_wires
        invariant
            r.bytes() == d,
            d == old(r).bytes(),
            ms0 == old(machines)@,
            conns0 == old(graph).connections@,
            off == entry.offset as int,
            machines@.len() == ms0.len(),
            w <= num_wires,
            num_wires == le16_at(d, off),
            num_wires <= 0xffff,
            off + 2 <= d.len(),
            r.position() == off + 2 + 8 * w,
            r.position() <= d.len(),
            graph.nodes@ == old(graph).nodes@,
            graph.connections@ == conns0 + wire_conns(d, off, ms0, w as int),
            forall|k: int| 0 <= k < ms0.len() ==> #[trigger] machines@[k] == (BmxMachine {
                num_inputs: wire_inputs(d, off, ms0.len() as int, k, w as int) as u16,
                ..ms0[k]
            }),
        decreases num_wires - w,
    {
        proof {
            assert forall|k: int| 0 <= k < ms0.len() implies wire_inputs(d, off, ms0.len() as int, k, w as int) <= w by {
                lemma_wire_inputs_bound(d, off, ms0.len() as int, k, w as int);
            }
        }
        let src_idx = match r.read_u16_le() {
            Ok(v) => v as usize,
            Err(e) => return Err(e),
        };
        let dst_idx = match r.read_u16_le() {
            Ok(v) => v as usize,
            Err(e) => return Err(e),
        };
        let amp = match r.read_u16_le() {
            Ok(v) => v,
            Err(e) => return Err(e),
        };
        let _pan = match r.read_u16_le() {
            Ok(v) => v,
            Err(e) => return Err(e),
        };
        let ghost wi = w as int;
        proof {
            assert(src_idx == wire_src(d, off, wi));
            assert(dst_idx == wire_dst(d, off, wi));
            assert(amp == wire_amp(d, off, wi));
        }
        if src_idx < machines.len() && dst_idx < machines.len() {
            let gain = amplitude_to_gain(amp);
            let to_id = machines[dst_idx].node_id;
            let from_id = machines[src_idx].node_id;
            graph.connections.push(Connection { from: from_id, to: to_id, from_channel: 0, to_channel: 0, gain });
            let n = machines[dst_idx].num_inputs;
            let ghost before = machines@;
            let mut m = machines[dst_idx].num_inputs;
            m = n + 1;
            machines[dst_idx].num_inputs = m;
            proof {
                assert forall|k: int| 0 <= k < ms0.len() implies #[trigger] machines@[k] == (BmxMachine {
                    num_inputs: wire_inputs(d, off, ms0.len() as int, k, wi + 1) as u16,
                    ..ms0[k]
                }) by {
                    assert(before[k] == (BmxMachine {
                        num_inputs: wire_inputs(d, off, ms0.len() as int, k, wi) as u16,
                        ..ms0[k]
                    }));
                }
                assert(graph.connections@ =~= conns0 + wire_conns(d, off, ms0, wi + 1));
            }
        } else {
            proof {
                assert forall|k: int| 0 <= k < ms0.len() implies #[trigger] machines@[k] == (BmxMachine {
                    num_inputs: wire_inputs(d, off, ms0.len() as int, k, wi + 1) as u16,
                    ..ms0[k]
                }) by {
                    assert(machines@[k] == (BmxMachine {
                        num_inputs: wire_inputs(d, off, ms0.len() as int, k, wi) as u16,
                        ..ms0[k]
                    }));
                }
            }
        }
        w = w + 1;
    }
    Ok(())
}

// ---------------------------------------------------------------------------
// Waves
// ---------------------------------------------------------------------------

/// One level (sample rate variant) of a wave.
#[derive(Clone, Copy, Debug)]
pub struct BmxWaveLevel {
    /// Frames of the level
    pub num_samples: u32,
    /// Loop start frame
    pub loop_start: u32,
    /// Loop end frame
    pub loop_end: u32,
    /// Sample rate in Hz
    pub sample_rate: u32,
    /// Root note (octave << 4 | semitone)
    pub root_note: u8,
}

/// A wave of the wave table.
pub struct BmxWave {
    /// Wave index used by patterns
    pub index: u16,
    /// Wave name
    pub name: String,
    /// Bits of the 32-bit float volume (1.0 = full)
    pub volume_bits: u32,
    /// Flags: 0x01 loop, 0x08 stereo, 0x10 ping-pong loop, 0x80 envelopes
    pub flags: u8,
    /// Levels of the wave
    pub levels: Vec<BmxWaveLevel>,
}

/// Where `k` envelopes from `pos` end: each a 10-byte header and a point
/// count whose low 15 bits count five-byte points; or the error reading
/// them gives.
pub open spec fn envelopes_end(d: Seq<u8>, pos: int, k: nat) -> Result<int, FormatError>
    decreases k,
{
    if k == 0 {
        Ok(pos)
    } else if pos + 12 > d.len() {
        Err(FormatError::UnexpectedEof)
    } else {
        let points = le16_at(d, pos + 10) % 0x8000;
        if pos + 12 + points * 5 > d.len() {
            Err(FormatError::UnexpectedEof)
        } else {
            envelopes_end(d, pos + 12 + points * 5, (k - 1) as nat)
        }
    }
}

/// Where the envelope block at `pos` ends: an envelope count, then the
/// envelopes; or the error reading it gives.
pub open spec fn envelope_block_end(d: Seq<u8>, pos: int) -> Result<int, FormatError> {
    if pos + 2 > d.len() {
        Err(FormatError::UnexpectedEof)
    } else {
        envelopes_end(d, pos + 2, le16_at(d, pos))
    }
}

fn skip_envelopes(r: &mut BmxReader) -> (res: Result<(), FormatError>)
    ensures
        final(r).bytes() == old(r).bytes(),
        match envelope_block_end(old(r).bytes(), old(r).position()) {
            Ok(end) => res is Ok && final(r).position() == end,
            Err(e) => res == Err::<(), FormatError>(e),
        },
{
    let ghost d = r.bytes();
    let num_envelopes = match r.read_u16_le() {
        Ok(n) => n as usize,
        Err(e) => return Err(e),
    };
    let ghost target = envelope_block_end(d, old(r).position());
    let mut i: usize = 0;
    while i < num_envelopes
        invariant
            r.bytes() == d,
            d == old(r).bytes(),
            i <= num_envelopes,
            target == envelope_block_end(d, old(r).position()),
            target == envelopes_end(d, r.position(), (num_envelopes - i) as nat),
        decreases num_envelopes - i,
    {
        // envelope header
        match r.skip(10) {
            Ok(()) => {},
            Err(e) => return Err(e),
        }
        let raw_num_points = match r.read_u16_le() {
            Ok(v) => v,
            Err(e) => return Err(e),
        };
        let num_points = (raw_num_points & 0x7FFF) as usize;
        assert(raw_num_points & 0x7FFF == raw_num_points % 0x8000) by (bit_vector);
        // each point: u16 x + u16 y + u8 flags
        match r.skip(num_points * 5) {
            Ok(()) => {},
            Err(e) => return Err(e),
        }
        i = i + 1;
    }
    Ok(())
}

/// The wave record at `pos`: an index, a zero-terminated file name, a
/// zero-terminated name, the bits of a 32-bit float volume, flags,
/// envelopes when flag 0x80 is set, a level count and 17 bytes per level.
/// Its index, where its name starts and ends, its volume bits, its flags,
/// where its levels start, how many there are and where it ends; or the
/// error reading it gives.
pub open spec fn wave_record(d: Seq<u8>, pos: int) -> Result<(u16, int, int, u32, u8, int, int, int), FormatError> {
    if pos + 2 > d.len() {
        Err(FormatError::UnexpectedEof)
    } else {
        let file_end = string_end(d, pos + 2);
        let n0 = if file_end < d.len() { file_end + 1 } else { file_end };
        let name_end = string_end(d, n0);
        let p1 = if name_end < d.len() { name_end + 1 } else { name_end };
        if p1 + 5 > d.len() {
            Err(FormatError::UnexpectedEof)
        } else {
            let flags = d[p1 + 4];
            let after_env = if flags & 0x80 != 0 { envelope_block_end(d, p1 + 5) } else { Ok(p1 + 5) };
            match after_env {
                Err(e) => Err(e),
                Ok(p2) => if p2 + 1 > d.len() {
                    Err(FormatError::UnexpectedEof)
                } else if p2 + 1 + 17 * d[p2] > d.len() {
                    Err(FormatError::UnexpectedEof)
                } else {
                    Ok((le16_at(d, pos) as u16, n0, name_end, le32_at(d, p1) as u32, flags, p2 + 1, d[p2] as int, p2 + 1 + 17 * d[p2]))
                },
            }
        }
    }
}

/// The `k` wave records from `pos` and the position after them, or the
/// error reading them gives.
pub open spec fn wave_records(d: Seq<u8>, pos: int, k: nat) -> Result<(Seq<(u16, int, int, u32, u8, int, int, int)>, int), FormatError>
    decreases k,
{
    if k == 0 {
        Ok((Seq::empty(), pos))
    } else {
        match wave_record(d, pos) {
            Err(e) => Err(e),
            Ok(rec) => match wave_records(d, rec.7, (k - 1) as nat) {
                Ok((rest, end)) => Ok((seq![rec] + rest, end)),
                Err(e) => Err(e),
            },
        }
    }
}

/// The wave table at `off`: a wave count, then the wave records.
pub open spec fn wavt_records(d: Seq<u8>, off: int) -> Result<Seq<(u16, int, int, u32, u8, int, int, int)>, FormatError> {
    if off + 2 > d.len() {
        Err(FormatError::UnexpectedEof)
    } else {
        match wave_records(d, off + 2, le16_at(d, off)) {
            Ok((v, _)) => Ok(v),
            Err(e) => Err(e),
        }
    }
}

/// `prefix` followed by the wave records of `rest`.
pub open spec fn waves_after(
    prefix: Seq<(u16, int, int, u32, u8, int, int, int)>,
    rest: Result<(Seq<(u16, int, int, u32, u8, int, int, int)>, int), FormatError>,
) -> Result<(Seq<(u16, int, int, u32, u8, int, int, int)>, int), FormatError> {
    match rest {
        Ok((v, end)) => Ok((prefix + v, end)),
        Err(e) => Err(e),
    }
}

/// Level `j` of a wave whose levels start at `pos`: sample count, loop
/// start, loop end and sample rate words, then the root note.
pub open spec fn wave_level_at(d: Seq<u8>, pos: int, j: int) -> BmxWaveLevel {
    let o = pos + 17 * j;
    BmxWaveLevel {
        num_samples: le32_at(d, o) as u32,
        loop_start: le32_at(d, o + 4) as u32,
        loop_end: le32_at(d, o + 8) as u32,
        sample_rate: le32_at(d, o + 12) as u32,
        root_note: d[o + 16],
    }
}

/// `w` is the wave of record `rec`.
pub open spec fn wave_ok(w: BmxWave, d: Seq<u8>, rec: (u16, int, int, u32, u8, int, int, int)) -> bool {
    &&& w.index == rec.0
    &&& w.name@ == lossy_text(d.subrange(rec.1, rec.2))
    &&& w.volume_bits == rec.3
    &&& w.flags == rec.4
    &&& w.levels@.len() == rec.6
    &&& forall|j: int| 0 <= j < rec.6 ==> #[trigger] w.levels@[j] == wave_level_at(d, rec.5, j)
}

proof fn lemma_waves_after_assoc(
    a: Seq<(u16, int, int, u32, u8, int, int, int)>,
    b: Seq<(u16, int, int, u32, u8, int, int, int)>,
    x: Result<(Seq<(u16, int, int, u32, u8, int, int, int)>, int), FormatError>,
)
    ensures
        waves_after(a, waves_after(b, x)) == waves_after(a + b, x),
{
    match x {
        Ok((v, e)) => {
            assert(a + (b + v) =~= (a + b) + v);
        },
        Err(_) => {},
    }
}

/// Read the wave table.
fn parse_wavt(r: &mut BmxReader, entry: &SectionEntry) -> (res: Result<Vec<BmxWave>, FormatError>)
    ensures
        final(r).bytes() == old(r).bytes(),
        match wavt_records(old(r).bytes(), entry.offset as int) {
            Ok(recs) => res matches Ok(waves) && waves@.len() == recs.len()
                && forall|i: int| 0 <= i < recs.len() ==> wave_ok(#[trigger] waves@[i], old(r).bytes(), recs[i]),
            Err(e) => res == Err::<Vec<BmxWave>, FormatError>(e),
        },
{
    let ghost d = r.bytes();
    r.seek(entry.offset as usize);
    let num_waves = match r.read_u16_le() {
        Ok(n) => n as usize,
        Err(e) => return Err(e),
    };
    let ghost target = wave_records(d, entry.offset as int + 2, num_waves as nat);
    let ghost recs: Seq<(u16, int, int, u32, u8, int, int, int)> = Seq::empty();
    proof {
        match target {
            Ok((v, e)) => { assert(recs + v =~= v); },
            Err(_) => {},
        }
    }
    let mut waves: Vec<BmxWave> = Vec::new();
    let mut i: usize = 0;
    while i < num_waves
        invariant
            r.bytes() == d,
            d == old(r).bytes(),
            i <= num_waves,
            entry.offset as int + 2 <= d.len(),
            num_waves == le16_at(d, entry.offset as int),
            target == wave_records(d, entry.offset as int + 2, num_waves as nat),
            target == waves_after(recs, wave_records(d, r.position(), (num_waves - i) as nat)),
            waves@.len() == i,
            recs.len() == i,
            forall|k: int| 0 <= k < i ==> wave_ok(#[trigger] waves@[k], d, recs[k]),
        decreases num_waves - i,
    {
        let ghost pos = r.position();
        let ghost left = (num_waves - i) as nat;
        let index = match r.read_u16_le() {
            Ok(v) => v,
            Err(e) => {
                proof { lemma_waves_after_assoc(recs, Seq::empty(), Err(e)); }
                return Err(e);
            },
        };
        if r.pos > r.data.len() {
            return Err(FormatError::UnexpectedEof);
        }
        let _file_name = match r.read_null_string() {
            Ok(v) => v,
            Err(e) => return Err(e),
        };
        let ghost n0 = r.position();
        let name = match r.read_null_string() {
            Ok(v) => v,
            Err(e) => return Err(e),
        };
        let ghost name_end = string_end(d, n0);
        let volume_bits = match r.read_f32_bits() {
            Ok(v) => v,
            Err(e) => {
                proof { lemma_waves_after_assoc(recs, Seq::empty(), Err(e)); }
                return Err(e);
            },
        };
        let flags = match r.read_u8() {
            Ok(v) => v,
            Err(e) => {
                proof { lemma_waves_after_assoc(recs, Seq::empty(), Err(e)); }
                return Err(e);
            },
        };
        if flags & 0x80 != 0 {
            match skip_envelopes(r) {
                Ok(()) => {},
                Err(e) => {
                    proof { lemma_waves_after_assoc(recs, Seq::empty(), Err(e)); }
                    return Err(e);
                },
            }
        }
        let ghost p2 = r.position();
        let num_levels = match r.read_u8() {
            Ok(v) => v as usize,
            Err(e) => {
                proof { lemma_waves_after_assoc(recs, Seq::empty(), Err(e)); }
                return Err(e);
            },
        };
        let mut levels: Vec<BmxWaveLevel> = Vec::new();
        let mut l: usize = 0;
        let mut level_err: Option<FormatError> = None;
        while l < num_levels
            invariant_except_break
                r.position() == p2 + 1 + 17 * l,
                r.position() <= d.len(),
                level_err is None,
            invariant
                r.bytes() == d,
                l <= num_levels,
                levels@.len() == l,
                forall|j: int| 0 <= j < l ==> #[trigger] levels@[j] == wave_level_at(d, p2 + 1, j),
            ensures
                level_err matches Some(e) ==> e == FormatError::UnexpectedEof && p2 + 1 + 17 * num_levels > d.len(),
                level_err is None ==> r.position() == p2 + 1 + 17 * num_levels && r.position() <= d.len() && l == num_levels,
            decreases num_levels - l,
        {
            let num_samples = match r.read_u32_le() {
                Ok(v) => v,
                Err(e) => { level_err = Some(e); break; },
            };
            let loop_start = match r.read_u32_le() {
                Ok(v) => v,
                Err(e) => { level_err = Some(e); break; },
            };
            let loop_end = match r.read_u32_le() {
                Ok(v) => v,
                Err(e) => { level_err = Some(e); break; },
            };
            let sample_rate = match r.read_u32_le() {
                Ok(v) => v,
                Err(e) => { level_err = Some(e); break; },
            };
            let root_note = match r.read_u8() {
                Ok(v) => v,
                Err(e) => { level_err = Some(e); break; },
            };
            levels.push(BmxWaveLevel { num_samples, loop_start, loop_end, sample_rate, root_note });
            l = l + 1;
        }
        match level_err {
            Some(e) => {
                proof { lemma_waves_after_assoc(recs, Seq::empty(), Err(e)); }
                return Err(e);
            },
            None => {},
        }
        let ghost rec = (index, n0, name_end, volume_bits, flags, p2 + 1, num_levels as int, r.position());
        proof {
            assert(wave_record(d, pos) == Ok::<(u16, int, int, u32, u8, int, int, int), FormatError>(rec));
            assert(wave_records(d, pos, left) == waves_after(seq![rec], wave_records(d, rec.7, (left - 1) as nat)));
            lemma_waves_after_assoc(recs, seq![rec], wave_records(d, rec.7, (left - 1) as nat));
        }
        let ghost waves0 = waves@;
        let w = BmxWave { index, name, volume_bits, flags, levels };
        proof {
            assert(wave_ok(w, d, rec));
        }
        waves.push(w);
        proof {
            let recs1 = recs.push(rec);
            assert(recs + seq![rec] =~= recs1);
            assert forall|k: int| 0 <= k < i + 1 implies wave_ok(#[trigger] waves@[k], d, recs1[k]) by {
                if k < i {
                    assert(waves@[k] == waves0[k]);
                    assert(recs1[k] == recs[k]);
                }
            }
            recs = recs1;
        }
        i = i + 1;
    }
    proof {
        assert(recs + Seq::<(u16, int, int, u32, u8, int, int, int)>::empty() =~= recs);
    }
    Ok(waves)
}

// ---------------------------------------------------------------------------
// Patterns
// ---------------------------------------------------------------------------

/// Offset of the cell bytes of `tick` on `track` in tracker pattern data
/// starting at `start`: tracks one after another, `ticks` cells of
/// `track_bytes` bytes each.
pub open spec fn tracker_cell_offset(start: int, ticks: int, track_bytes: int, tick: int, track: int) -> int {
    start + (track * ticks + tick) * track_bytes
}

/// The cell whose bytes start at `o`.
pub open spec fn tracker_cell_at(d: Seq<u8>, o: int, lookup: Seq<(u16, u8)>) -> Cell {
    tracker_cell_spec(d[o], d[o + 1], d[o + 2], d[o + 3], d[o + 4], lookup)
}

/// Read the cells of a tracker pattern: per track, per tick, note, wave,
/// volume, effect and argument bytes, followed by `track_bytes - 5` bytes
/// that are skipped (a second effect column, for instance).
pub fn read_tracker_pattern(
    r: &mut BmxReader,
    num_ticks: u16,
    num_tracks: u8,
    track_bytes: usize,
    wave_lookup: &[(u16, u8)],
) -> (res: Result<Pattern, FormatError>)
    requires
        track_bytes >= 5,
    ensures
        final(r).bytes() == old(r).bytes(),
        res is Err <==> num_ticks * num_tracks > 0
            && old(r).position() + num_ticks * num_tracks * track_bytes > old(r).bytes().len(),
        res is Err ==> res == Err::<Pattern, FormatError>(FormatError::UnexpectedEof),
        res matches Ok(p) ==> {
            &&& p.wf()
            &&& p.rows == num_ticks
            &&& p.channels == num_tracks
            &&& p.ticks_per_row == 6
            &&& p.rows_per_beat.is_none()
            &&& final(r).position() == old(r).position() + num_ticks * num_tracks * track_bytes
            &&& forall|tick: int, track: int| 0 <= tick < num_ticks && 0 <= track < num_tracks ==>
                #[trigger] p.cell_at(tick, track) == tracker_cell_at(
                    old(r).bytes(),
                    tracker_cell_offset(old(r).position(), num_ticks as int, track_bytes as int, tick, track),
                    wave_lookup@,
                )
        },
{
    let mut pattern = Pattern::new(num_ticks, num_tracks);
    let ghost start = r.position();
    let ghost d = r.bytes();
    let ghost ticks = num_ticks as int;
    let ghost tb = track_bytes as int;
    proof {
        assert forall|tk: int, tr: int| 0 <= tk < num_ticks && 0 <= tr < num_tracks implies
            #[trigger] pattern.cell_at(tk, tr) == crate::pattern::empty_cell() by {
            crate::pattern::lemma_cell_index_in_bounds(tk, tr, num_ticks as int, num_tracks as int);
        }
    }
    let mut track: u8 = 0;
    assert((track * ticks) * tb == 0) by (nonlinear_arith) requires track == 0;
    while track < num_tracks
        invariant
            r.bytes() == d,
            d == old(r).bytes(),
            start == old(r).position(),
            ticks == num_ticks,
            tb == track_bytes,
            track_bytes >= 5,
            track <= num_tracks,
            r.position() == start + (track * ticks) * tb,
            track * ticks > 0 ==> start + (track * ticks) * tb <= d.len(),
            pattern.wf(),
            pattern.rows == num_ticks,
            pattern.channels == num_tracks,
            pattern.ticks_per_row == 6,
            pattern.rows_per_beat.is_none(),
            forall|tk: int, tr: int| 0 <= tk < num_ticks && 0 <= tr < num_tracks ==>
                #[trigger] pattern.cell_at(tk, tr) == (if tr < track {
                    tracker_cell_at(d, tracker_cell_offset(start, ticks, tb, tk, tr), wave_lookup@)
                } else {
                    crate::pattern::empty_cell()
                }),
        decreases num_tracks - track,
    {
        let mut tick: u16 = 0;
        while tick < num_ticks
            invariant
                r.bytes() == d,
                d == old(r).bytes(),
                start == old(r).position(),
                ticks == num_ticks,
                tb == track_bytes,
                track_bytes >= 5,
                track < num_tracks,
                tick <= num_ticks,
                r.position() == start + (track * ticks + tick) * tb,
                track * ticks + tick > 0 ==> start + (track * ticks + tick) * tb <= d.len(),
                pattern.wf(),
                pattern.rows == num_ticks,
                pattern.channels == num_tracks,
                pattern.ticks_per_row == 6,
                pattern.rows_per_beat.is_none(),
                forall|tk: int, tr: int| 0 <= tk < num_ticks && 0 <= tr < num_tracks ==>
                    #[trigger] pattern.cell_at(tk, tr) == (if tr < track || (tr == track && tk < tick) {
                        tracker_cell_at(d, tracker_cell_offset(start, ticks, tb, tk, tr), wave_lookup@)
                    } else {
                        crate::pattern::empty_cell()
                    }),
            decreases num_ticks - tick,
        {
            let ghost k = track * ticks + tick;
            let bytes = match r.read_bytes(track_bytes) {
                Ok(b) => b,
                Err(e) => {
                    proof {
                        let total = ticks * num_tracks;
                        assert(k + 1 <= total) by (nonlinear_arith)
                            requires k == track * ticks + tick, tick < ticks, track < num_tracks, 0 <= track,
                                total == ticks * num_tracks;
                        assert(total * tb >= (k + 1) * tb) by (nonlinear_arith)
                            requires k + 1 <= total, tb >= 0;
                        assert((k + 1) * tb == k * tb + tb) by (nonlinear_arith);
                    }
                    return Err(e);
                },
            };
            let cell = Cell {
                note: buzz_note_to_note(bytes[0]),
                instrument: wave_to_instrument(bytes[1], wave_lookup),
                volume: buzz_volume_to_cmd(bytes[2]),
                effect: parse_effect(bytes[3], bytes[4]),
            };
            let ghost before = pattern;
            if !cell.is_empty() {
                pattern.set_cell(tick, track, cell);
            }
            proof {
                let o = tracker_cell_offset(start, ticks, tb, tick as int, track as int);
                assert(o == start + k * tb);
                assert(cell == tracker_cell_at(d, o, wave_lookup@));
                crate::pattern::lemma_cell_index_in_bounds(tick as int, track as int, num_ticks as int, num_tracks as int);
                assert forall|tk: int, tr: int| 0 <= tk < num_ticks && 0 <= tr < num_tracks implies
                    #[trigger] pattern.cell_at(tk, tr) == (if tr < track || (tr == track && tk < tick + 1) {
                        tracker_cell_at(d, tracker_cell_offset(start, ticks, tb, tk, tr), wave_lookup@)
                    } else {
                        crate::pattern::empty_cell()
                    }) by {
                    crate::pattern::lemma_cell_index_in_bounds(tk, tr, num_ticks as int, num_tracks as int);
                    if !(tk == tick && tr == track) {
                        lemma_index_injective(tk, tr, tick as int, track as int, num_tracks as int);
                        assert(pattern.cell_at(tk, tr) == before.cell_at(tk, tr));
                    }
                }
                assert((k + 1) * tb == k * tb + tb) by (nonlinear_arith);
            }
            tick = tick + 1;
        }
        proof {
            assert(track * ticks + ticks == (track + 1) * ticks) by (nonlinear_arith);
        }
        track = track + 1;
    }
    proof {
        assert(num_tracks * ticks == ticks * num_tracks) by (nonlinear_arith);
    }
    Ok(pattern)
}

/// A pattern of a machine: its name, its length in ticks, and for a
/// tracker machine its cells.
pub struct BmxPattern {
    /// Pattern name
    pub name: String,
    /// Length in ticks (rows)
    pub ticks: u16,
    /// Cells, for a tracker machine
    pub pattern: Option<Pattern>,
}

/// The parameter definition a machine's patterns are read with: its own,
/// or none.
pub open spec fn track_bytes_of(para_defs: Seq<BmxParaDef>, i: int) -> int {
    if 0 <= i < para_defs.len() { params_size(para_defs[i].track_params@) } else { 0 }
}

/// `a * b`, or `usize::MAX` where the product does not fit.
pub open spec fn sat_prod(a: int, b: int) -> int {
    if a * b > usize::MAX { usize::MAX as int } else { a * b }
}

/// Bytes per tick of a parameter list, or `usize::MAX` where that does not fit.
pub open spec fn sat_size(params: Seq<BmxParam>) -> int {
    if params_size(params) <= usize::MAX { params_size(params) } else { usize::MAX as int }
}

/// Global bytes per tick in the patterns of machine `i`.
pub open spec fn global_bytes_sat(pds: Seq<BmxParaDef>, i: int) -> int {
    if 0 <= i < pds.len() { sat_size(pds[i].global_params@) } else { 0 }
}

/// Bytes per track and tick in the patterns of machine `i`.
pub open spec fn track_bytes_sat(pds: Seq<BmxParaDef>, i: int) -> int {
    if 0 <= i < pds.len() { sat_size(pds[i].track_params@) } else { 0 }
}

/// The track columns of machine `i`'s patterns are read as cells: it is a
/// tracker with at least five bytes per track and tick.
pub open spec fn patt_cells(ms: Seq<BmxMachine>, pds: Seq<BmxParaDef>, i: int) -> bool {
    ms[i].is_tracker && track_bytes_of(pds, i) >= 5
}

/// The pattern record at `pos` of a machine with `inputs` wires in, `gb`
/// global bytes and `tb` bytes per track and tick, and `tracks` tracks read
/// as cells or skipped: a zero-terminated name, the length in ticks, per
/// wire a source word and four bytes per tick, the global columns, then the
/// track columns. Where its name ends, its length, where its track columns
/// start and where it ends; or the error reading it gives.
pub open spec fn patt_record(d: Seq<u8>, pos: int, inputs: int, gb: int, tb: int, cells: bool, tracks: int)
    -> Result<(int, u16, int, int), FormatError>
{
    if pos > d.len() {
        Err(FormatError::UnexpectedEof)
    } else {
        let se = string_end(d, pos);
        let p1 = if se < d.len() { se + 1 } else { se };
        if p1 + 2 > d.len() {
            Err(FormatError::UnexpectedEof)
        } else {
            let ticks = le16_at(d, p1) as u16;
            let p2 = p1 + 2 + inputs * (2 + 4 * ticks);
            if p2 > d.len() {
                Err(FormatError::UnexpectedEof)
            } else {
                let p3 = p2 + sat_prod(ticks as int, gb);
                if p3 > d.len() {
                    Err(FormatError::UnexpectedEof)
                } else if cells {
                    if tracks > 255 {
                        Err(FormatError::UnsupportedVersion)
                    } else if p3 + ticks * tracks * tb > d.len() {
                        Err(FormatError::UnexpectedEof)
                    } else {
                        Ok((se, ticks, p3, p3 + ticks * tracks * tb))
                    }
                } else {
                    let n = sat_prod(sat_prod(tracks, ticks as int), tb);
                    if p3 + n > d.len() {
                        Err(FormatError::UnexpectedEof)
                    } else {
                        Ok((se, ticks, p3, p3 + n))
                    }
                }
            }
        }
    }
}

/// The `k` pattern records from `pos`, each with where it starts, and the
/// position after them; or the error reading them gives.
pub open spec fn patt_records(d: Seq<u8>, pos: int, k: nat, inputs: int, gb: int, tb: int, cells: bool, tracks: int)
    -> Result<(Seq<(int, (int, u16, int, int))>, int), FormatError>
    decreases k,
{
    if k == 0 {
        Ok((Seq::empty(), pos))
    } else {
        match patt_record(d, pos, inputs, gb, tb, cells, tracks) {
            Err(e) => Err(e),
            Ok(rec) => match patt_records(d, rec.3, (k - 1) as nat, inputs, gb, tb, cells, tracks) {
                Ok((rest, end)) => Ok((seq![(pos, rec)] + rest, end)),
                Err(e) => Err(e),
            },
        }
    }
}

/// `prefix` followed by the pattern records of `rest`.
pub open spec fn patt_after(
    prefix: Seq<(int, (int, u16, int, int))>,
    rest: Result<(Seq<(int, (int, u16, int, int))>, int), FormatError>,
) -> Result<(Seq<(int, (int, u16, int, int))>, int), FormatError> {
    match rest {
        Ok((v, end)) => Ok((prefix + v, end)),
        Err(e) => Err(e),
    }
}

/// What reading a machine's patterns depends on: its wires in, its global
/// bytes and bytes per track and tick, and whether its track columns are
/// read as cells.
pub open spec fn patt_shape(ms: Seq<BmxMachine>, pds: Seq<BmxParaDef>) -> Seq<(int, int, int, bool)> {
    Seq::new(ms.len(), |i: int| (ms[i].num_inputs as int, global_bytes_sat(pds, i), track_bytes_sat(pds, i), patt_cells(ms, pds, i)))
}

/// The pattern records of machines `i..` of shape `sh` from `pos`: per
/// machine a pattern count and a track count, then its pattern records. Per
/// machine where its records start and the records; or the error reading
/// them gives.
pub open spec fn patt_machines(d: Seq<u8>, pos: int, sh: Seq<(int, int, int, bool)>, i: int)
    -> Result<(Seq<(int, Seq<(int, (int, u16, int, int))>)>, int), FormatError>
    decreases sh.len() - i,
{
    if i < 0 || i >= sh.len() {
        Ok((Seq::empty(), pos))
    } else if pos + 4 > d.len() {
        Err(FormatError::UnexpectedEof)
    } else {
        match patt_records(d, pos + 4, le16_at(d, pos), sh[i].0, sh[i].1, sh[i].2, sh[i].3, le16_at(d, pos + 2) as int) {
            Err(e) => Err(e),
            Ok((recs, end)) => match patt_machines(d, end, sh, i + 1) {
                Ok((rest, last)) => Ok((seq![(pos, recs)] + rest, last)),
                Err(e) => Err(e),
            },
        }
    }
}

/// `prefix` followed by the machines of `rest`.
pub open spec fn machs_after(
    prefix: Seq<(int, Seq<(int, (int, u16, int, int))>)>,
    rest: Result<(Seq<(int, Seq<(int, (int, u16, int, int))>)>, int), FormatError>,
) -> Result<(Seq<(int, Seq<(int, (int, u16, int, int))>)>, int), FormatError> {
    match rest {
        Ok((v, end)) => Ok((prefix + v, end)),
        Err(e) => Err(e),
    }
}

/// `bp` is the pattern of record `rec` starting at `pos`: named by the bytes
/// before its name's end, of its length, and holding the cells of its track
/// columns when they are read as cells.
pub open spec fn patt_pattern_ok(
    bp: BmxPattern,
    d: Seq<u8>,
    pos: int,
    rec: (int, u16, int, int),
    cells: bool,
    tracks: int,
    tb: int,
    lookup: Seq<(u16, u8)>,
) -> bool {
    &&& bp.name@ == lossy_text(d.subrange(pos, rec.0))
    &&& bp.ticks == rec.1
    &&& (bp.pattern is Some) == cells
    &&& (bp.pattern matches Some(p) ==> {
        &&& p.wf()
        &&& p.rows == rec.1
        &&& p.channels == tracks
        &&& p.ticks_per_row == 6
        &&& p.rows_per_beat is None
        &&& forall|tick: int, track: int| 0 <= tick < rec.1 && 0 <= track < tracks ==>
            #[trigger] p.cell_at(tick, track) == tracker_cell_at(d, tracker_cell_offset(rec.2, rec.1 as int, tb, tick, track), lookup)
    })
}

/// The patterns of every machine, read from the records `machs`.
pub open spec fn patt_all_ok(
    all: Seq<Vec<BmxPattern>>,
    machs: Seq<(int, Seq<(int, (int, u16, int, int))>)>,
    d: Seq<u8>,
    ms: Seq<BmxMachine>,
    pds: Seq<BmxParaDef>,
    lookup: Seq<(u16, u8)>,
) -> bool {
    &&& all.len() == machs.len()
    &&& forall|i: int| 0 <= i < all.len() ==> (#[trigger] all[i])@.len() == machs[i].1.len()
    &&& forall|i: int, j: int| 0 <= i < all.len() && 0 <= j < all[i]@.len() ==>
        patt_pattern_ok(#[trigger] all[i]@[j], d, machs[i].1[j].0, machs[i].1[j].1, patt_cells(ms, pds, i),
            le16_at(d, machs[i].0 + 2) as int, track_bytes_sat(pds, i), lookup)
}

proof fn lemma_patt_after_assoc(
    a: Seq<(int, (int, u16, int, int))>,
    b: Seq<(int, (int, u16, int, int))>,
    x: Result<(Seq<(int, (int, u16, int, int))>, int), FormatError>,
)
    ensures
        patt_after(a, patt_after(b, x)) == patt_after(a + b, x),
{
    match x {
        Ok((v, e)) => {
            assert(a + (b + v) =~= (a + b) + v);
        },
        Err(_) => {},
    }
}

proof fn lemma_machs_after_assoc(
    a: Seq<(int, Seq<(int, (int, u16, int, int))>)>,
    b: Seq<(int, Seq<(int, (int, u16, int, int))>)>,
    x: Result<(Seq<(int, Seq<(int, (int, u16, int, int))>)>, int), FormatError>,
)
    ensures
        machs_after(a, machs_after(b, x)) == machs_after(a + b, x),
{
    match x {
        Ok((v, e)) => {
            assert(a + (b + v) =~= (a + b) + v);
        },
        Err(_) => {},
    }
}

/// Read the patterns of every machine. Wire and global parameter columns
/// are skipped; the track columns of a tracker machine are read as cells.
fn parse_patt(
    r: &mut BmxReader,
    entry: &SectionEntry,
    machines: &Vec<BmxMachine>,
    para_defs: &Vec<BmxParaDef>,
    wave_lookup: &[(u16, u8)],
) -> (res: Result<Vec<Vec<BmxPattern>>, FormatError>)
    ensures
        final(r).bytes() == old(r).bytes(),
        match patt_machines(old(r).bytes(), entry.offset as int, patt_shape(machines@, para_defs@), 0) {
            Ok((machs, _)) => res matches Ok(all)
                && patt_all_ok(all@, machs, old(r).bytes(), machines@, para_defs@, wave_lookup@),
            Err(e) => res == Err::<Vec<Vec<BmxPattern>>, FormatError>(e),
        },
        res matches Ok(all) ==> {
            &&& all@.len() == machines@.len()
            &&& forall|i: int, j: int| 0 <= i < all@.len() && 0 <= j < all@[i]@.len() ==> {
                let bp = #[trigger] all@[i]@[j];
                &&& (bp.pattern is Some <==> machines@[i].is_tracker && track_bytes_of(para_defs@, i) >= 5)
                &&& (bp.pattern matches Some(p) ==> p.wf() && p.rows == bp.ticks)
            }
        },
{
    let ghost d = r.bytes();
    let ghost ms = machines@;
    let ghost pds = para_defs@;
    let ghost lookup = wave_lookup@;
    let ghost sh = patt_shape(ms, pds);
    r.seek(entry.offset as usize);
    let ghost target = patt_machines(d, entry.offset as int, sh, 0);
    let ghost machs: Seq<(int, Seq<(int, (int, u16, int, int))>)> = Seq::empty();
    proof {
        match target {
            Ok((v, e)) => { assert(machs + v =~= v); },
            Err(_) => {},
        }
    }
    let mut all_patterns: Vec<Vec<BmxPattern>> = Vec::new();
    let mut mi: usize = 0;
    while mi < machines.len()
        invariant
            r.bytes() == d,
            d == old(r).bytes(),
            ms == machines@,
            pds == para_defs@,
            sh == patt_shape(ms, pds),
            lookup == wave_lookup@,
            target == patt_machines(d, entry.offset as int, sh, 0),
            target == machs_after(machs, patt_machines(d, r.position(), sh, mi as int)),
            r.position() <= d.len() || mi == 0,
            mi <= machines@.len(),
            all_patterns@.len() == mi,
            machs.len() == mi,
            patt_all_ok(all_patterns@, machs, d, ms, pds, lookup),
            forall|i: int, j: int| 0 <= i < all_patterns@.len() && 0 <= j < all_patterns@[i]@.len() ==> {
                let bp = #[trigger] all_patterns@[i]@[j];
                &&& (bp.pattern is Some <==> machines@[i].is_tracker && track_bytes_of(para_defs@, i) >= 5)
                &&& (bp.pattern matches Some(p) ==> p.wf() && p.rows == bp.ticks)
            },
        decreases machines@.len() - mi,
    {
        let ghost mpos = r.position();
        let mach = &machines[mi];
        let num_patterns = match r.read_u16_le() {
            Ok(v) => v as usize,
            Err(e) => {
                proof { lemma_machs_after_assoc(machs, Seq::empty(), Err(e)); }
                return Err(e);
            },
        };
        let num_tracks = match r.read_u16_le() {
            Ok(v) => v as usize,
            Err(e) => {
                proof { lemma_machs_after_assoc(machs, Seq::empty(), Err(e)); }
                return Err(e);
            },
        };
        let (global_bytes, track_bytes) = if mi < para_defs.len() {
            (para_defs[mi].global_byte_size(), para_defs[mi].track_byte_size())
        } else {
            (0, 0)
        };
        let cells = mach.is_tracker && track_bytes >= 5;
        let ghost inputs = mach.num_inputs as int;
        let ghost gb = global_bytes as int;
        let ghost tb = track_bytes as int;
        let ghost ptarget = patt_records(d, mpos + 4, num_patterns as nat, inputs, gb, tb, cells, num_tracks as int);
        proof {
            lemma_params_size_nonneg(if mi < para_defs@.len() { para_defs@[mi as int].track_params@ } else { Seq::empty() });
            assert(cells <==> machines@[mi as int].is_tracker && track_bytes_of(para_defs@, mi as int) >= 5);
            assert(cells == patt_cells(ms, pds, mi as int));
            assert(gb == global_bytes_sat(pds, mi as int));
            assert(tb == track_bytes_sat(pds, mi as int));
            assert(num_tracks == le16_at(d, mpos + 2));
        }
        let ghost recs: Seq<(int, (int, u16, int, int))> = Seq::empty();
        proof {
            match ptarget {
                Ok((v, e)) => { assert(recs + v =~= v); },
                Err(_) => {},
            }
        }
        proof {
            assert(mi < ms.len());
            assert(num_patterns == le16_at(d, mpos));
            assert(inputs == ms[mi as int].num_inputs);
        }
        let mut patterns: Vec<BmxPattern> = Vec::new();
        let mut pi: usize = 0;
        while pi < num_patterns
            invariant
                r.bytes() == d,
                d == old(r).bytes(),
                mpos + 4 <= d.len(),
                ms == machines@,
                pds == para_defs@,
            sh == patt_shape(ms, pds),
                lookup == wave_lookup@,
                target == patt_machines(d, entry.offset as int, sh, 0),
                target == machs_after(machs, patt_machines(d, mpos, sh, mi as int)),
                ptarget matches Err(e) ==> patt_machines(d, mpos, sh, mi as int) == Err::<(Seq<(int, Seq<(int, (int, u16, int, int))>)>, int), FormatError>(e),
                ptarget == patt_records(d, mpos + 4, num_patterns as nat, inputs, gb, tb, cells, num_tracks as int),
                ptarget == patt_after(recs, patt_records(d, r.position(), (num_patterns - pi) as nat, inputs, gb, tb, cells, num_tracks as int)),
                r.position() <= d.len(),
                inputs == mach.num_inputs,
                tb == track_bytes,
                gb == global_bytes,
                pi <= num_patterns,
                patterns@.len() == pi,
                recs.len() == pi,
                cells ==> track_bytes >= 5,
                num_tracks <= 0xffff,
                forall|j: int| 0 <= j < patterns@.len() ==> {
                    let bp = #[trigger] patterns@[j];
                    &&& (bp.pattern is Some <==> cells)
                    &&& (bp.pattern matches Some(p) ==> p.wf() && p.rows == bp.ticks)
                    &&& patt_pattern_ok(bp, d, recs[j].0, recs[j].1, cells, num_tracks as int, tb, lookup)
                },
            decreases num_patterns - pi,
        {
            let ghost ppos = r.position();
            let ghost left = (num_patterns - pi) as nat;
            if r.pos > r.data.len() {
                return Err(FormatError::UnexpectedEof);
            }
            let name = match r.read_null_string() {
                Ok(v) => v,
                Err(e) => return Err(e),
            };
            let ghost se = string_end(d, ppos);
            let ghost p1 = r.position();
            let num_ticks = match r.read_u16_le() {
                Ok(v) => v,
                Err(e) => {
                    proof {
                        assert(patt_record(d, ppos, inputs, gb, tb, cells, num_tracks as int) == Err::<(int, u16, int, int), FormatError>(e));
                        assert(patt_records(d, ppos, left, inputs, gb, tb, cells, num_tracks as int)
                            == Err::<(Seq<(int, (int, u16, int, int))>, int), FormatError>(e));
                    }
                    return Err(e);
                },
            };
            let ghost ticks = num_ticks as int;
            // Wire columns: per input, the source index and per tick amplitude and pan
            let mut w: u16 = 0;
            let mut wire_err: Option<FormatError> = None;
            while w < mach.num_inputs
                invariant_except_break
                    r.position() == p1 + 2 + w * (2 + 4 * ticks),
                    r.position() <= d.len(),
                    wire_err is None,
                invariant
                    r.bytes() == d,
                    w <= mach.num_inputs,
                    inputs == mach.num_inputs,
                    ticks == num_ticks,
                ensures
                    wire_err matches Some(e) ==> e == FormatError::UnexpectedEof && p1 + 2 + inputs * (2 + 4 * ticks) > d.len(),
                    wire_err is None ==> r.position() == p1 + 2 + inputs * (2 + 4 * ticks) && r.position() <= d.len(),
                decreases mach.num_inputs - w,
            {
                match r.read_u16_le() {
                    Ok(_) => {},
                    Err(e) => {
                        proof {
                            assert(p1 + 2 + inputs * (2 + 4 * ticks) > d.len()) by (nonlinear_arith)
                                requires p1 + 2 + w * (2 + 4 * ticks) + 2 > d.len(), w < inputs, ticks >= 0;
                        }
                        wire_err = Some(e);
                        break;
                    },
                }
                match r.skip(num_ticks as usize * 4) {
                    Ok(()) => {},
                    Err(e) => {
                        proof {
                            assert(p1 + 2 + inputs * (2 + 4 * ticks) > d.len()) by (nonlinear_arith)
                                requires p1 + 2 + w * (2 + 4 * ticks) + 2 + ticks * 4 > d.len(), w < inputs, ticks >= 0;
                        }
                        wire_err = Some(e);
                        break;
                    },
                }
                assert(p1 + 2 + (w + 1) * (2 + 4 * ticks) == p1 + 2 + w * (2 + 4 * ticks) + 2 + ticks * 4) by (nonlinear_arith);
                w = w + 1;
            }
            match wire_err {
                Some(e) => {
                    proof { lemma_patt_after_assoc(recs, Seq::empty(), Err(e)); }
                    return Err(e);
                },
                None => {},
            }
            let ghost p2 = r.position();
            // Global parameter columns
            match r.skip(sat_mul(num_ticks as usize, global_bytes)) {
                Ok(()) => {},
                Err(e) => {
                    proof { lemma_patt_after_assoc(recs, Seq::empty(), Err(e)); }
                    return Err(e);
                },
            }
            let ghost p3 = r.position();
            let pattern = if cells {
                if num_tracks > 255 {
                    proof { lemma_patt_after_assoc(recs, Seq::empty(), Err(FormatError::UnsupportedVersion)); }
                    return Err(FormatError::UnsupportedVersion);
                }
                match read_tracker_pattern(r, num_ticks, num_tracks as u8, track_bytes, wave_lookup) {
                    Ok(p) => Some(p),
                    Err(e) => {
                        proof { lemma_patt_after_assoc(recs, Seq::empty(), Err(e)); }
                        return Err(e);
                    },
                }
            } else {
                match r.skip(sat_mul(sat_mul(num_tracks, num_ticks as usize), track_bytes)) {
                    Ok(()) => {},
                    Err(e) => {
                        proof { lemma_patt_after_assoc(recs, Seq::empty(), Err(e)); }
                        return Err(e);
                    },
                }
                None
            };
            let ghost rec = (se, num_ticks, p3, r.position());
            proof {
                assert(ticks * num_tracks == 0 ==> ticks * num_tracks * tb == 0) by (nonlinear_arith);
                assert(patt_record(d, ppos, inputs, gb, tb, cells, num_tracks as int) == Ok::<(int, u16, int, int), FormatError>(rec));
                assert(patt_records(d, ppos, left, inputs, gb, tb, cells, num_tracks as int)
                    == patt_after(seq![(ppos, rec)], patt_records(d, rec.3, (left - 1) as nat, inputs, gb, tb, cells, num_tracks as int)));
                lemma_patt_after_assoc(recs, seq![(ppos, rec)], patt_records(d, rec.3, (left - 1) as nat, inputs, gb, tb, cells, num_tracks as int));
            }
            let ghost pats0 = patterns@;
            let bp_new = BmxPattern { name, ticks: num_ticks, pattern };
            proof {
                assert(bp_new.name@ == lossy_text(d.subrange(ppos, rec.0)));
                assert(bp_new.ticks == rec.1);
                assert((bp_new.pattern is Some) == cells);
                assert(patt_pattern_ok(bp_new, d, ppos, rec, cells, num_tracks as int, tb, lookup));
            }
            patterns.push(bp_new);
            proof {
                let recs1 = recs.push((ppos, rec));
                assert(recs + seq![(ppos, rec)] =~= recs1);
                assert forall|j: int| 0 <= j < patterns@.len() implies {
                    let bp = #[trigger] patterns@[j];
                    &&& (bp.pattern is Some <==> cells)
                    &&& (bp.pattern matches Some(p) ==> p.wf() && p.rows == bp.ticks)
                    &&& patt_pattern_ok(bp, d, recs1[j].0, recs1[j].1, cells, num_tracks as int, tb, lookup)
                } by {
                    if j < pats0.len() {
                        assert(patterns@[j] == pats0[j]);
                        assert(recs1[j] == recs[j]);
                    }
                }
                recs = recs1;
            }
            pi = pi + 1;
        }
        proof {
            assert(patt_records(d, r.position(), 0, inputs, gb, tb, cells, num_tracks as int)
                == Ok::<(Seq<(int, (int, u16, int, int))>, int), FormatError>((Seq::empty(), r.position())));
            assert(recs + Seq::<(int, (int, u16, int, int))>::empty() =~= recs);
            // the records of this machine, then those of the next machines
            assert(patt_machines(d, mpos, sh, mi as int)
                == machs_after(seq![(mpos, recs)], patt_machines(d, r.position(), sh, mi + 1)));
            lemma_machs_after_assoc(machs, seq![(mpos, recs)], patt_machines(d, r.position(), sh, mi + 1));
        }
        let ghost all0 = all_patterns@;
        all_patterns.push(patterns);
        proof {
            let machs1 = machs.push((mpos, recs));
            assert(machs + seq![(mpos, recs)] =~= machs1);
            assert forall|i: int| 0 <= i < all_patterns@.len() implies (#[trigger] all_patterns@[i])@.len() == machs1[i].1.len() by {
                if i < all0.len() {
                    assert(all_patterns@[i] == all0[i]);
                    assert(machs1[i] == machs[i]);
                }
            }
            assert forall|i: int, j: int| 0 <= i < all_patterns@.len() && 0 <= j < all_patterns@[i]@.len() implies
                patt_pattern_ok(#[trigger] all_patterns@[i]@[j], d, machs1[i].1[j].0, machs1[i].1[j].1, patt_cells(ms, pds, i),
                    le16_at(d, machs1[i].0 + 2) as int, track_bytes_sat(pds, i), lookup) by {
                if i < all0.len() {
                    assert(all_patterns@[i] == all0[i]);
                    assert(machs1[i] == machs[i]);
                } else {
                    assert(all_patterns@[i]@ == patterns@);
                }
            }
            machs = machs1;
        }
        mi = mi + 1;
    }
    proof {
        assert(machs + Seq::<(int, Seq<(int, (int, u16, int, int))>)>::empty() =~= machs);
    }
    Ok(all_patterns)
}

// ---------------------------------------------------------------------------
// Sequences
// ---------------------------------------------------------------------------

/// A width in bytes that sequence values can have.
pub open spec fn valid_width(w: u8) -> bool {
    w == 1 || w == 2 || w == 4
}

/// The little-endian value `width` bytes wide at `pos`.
pub open spec fn var_uint_at(d: Seq<u8>, pos: int, width: u8) -> int {
    if width == 1 {
        d[pos] as int
    } else if width == 2 {
        le16_at(d, pos) as int
    } else {
        le32_at(d, pos) as int
    }
}

/// Rows of clip `idx` of a pool whose clips have these row counts; 0 for a
/// clip that does not exist.
pub open spec fn clip_length(clip_rows: Seq<u16>, idx: int) -> u16 {
    if 0 <= idx < clip_rows.len() { clip_rows[idx] } else { 0 }
}

/// The entry of an event that starts pattern `event_id - 16` at row
/// `position`.
pub open spec fn sequence_entry(position: int, event_id: u32, rpb: u8, clip_rows: Seq<u16>) -> SeqEntry {
    let clip_idx = (event_id - 16) as u16;
    SeqEntry {
        start: add_rows_spec(MusicalTime { beat: 0, sub_beat: 0 }, position, rpb as int),
        clip_idx,
        length: clip_length(clip_rows, clip_idx as int),
        termination: SeqTermination::Natural,
    }
}

/// Decode `n` sequence events from `pos`: each a position `bpep` bytes wide
/// and an event `bpe` bytes wide. Events from 16 on start pattern
/// `event - 16`; the smaller ones (mute, break, ...) are dropped. The entries
/// and the position after the events, or the error reading them gives.
pub open spec fn sequence_events(
    d: Seq<u8>,
    pos: int,
    n: nat,
    bpep: u8,
    bpe: u8,
    rpb: u8,
    clip_rows: Seq<u16>,
) -> Result<(Seq<SeqEntry>, int), FormatError>
    decreases n,
{
    if n == 0 {
        Ok((Seq::empty(), pos))
    } else if !valid_width(bpep) {
        Err(FormatError::UnsupportedVersion)
    } else if pos + bpep > d.len() {
        Err(FormatError::UnexpectedEof)
    } else if !valid_width(bpe) {
        Err(FormatError::UnsupportedVersion)
    } else if pos + bpep + bpe > d.len() {
        Err(FormatError::UnexpectedEof)
    } else {
        let position = var_uint_at(d, pos, bpep);
        let id = event_id_spec(var_uint_at(d, pos + bpep, bpe) as u32, bpe);
        if id >= 16 && rpb == 0 {
            Err(FormatError::UnsupportedVersion)
        } else {
            let head = if id >= 16 { seq![sequence_entry(position, id, rpb, clip_rows)] } else { Seq::empty() };
            match sequence_events(d, pos + bpep + bpe, (n - 1) as nat, bpep, bpe, rpb, clip_rows) {
                Ok((rest, end)) => Ok((head + rest, end)),
                Err(e) => Err(e),
            }
        }
    }
}

/// Entries read so far followed by the outcome of reading the rest.
pub open spec fn entries_after(prefix: Seq<SeqEntry>, rest: Result<(Seq<SeqEntry>, int), FormatError>) -> Result<(Seq<SeqEntry>, int), FormatError> {
    match rest {
        Ok((v, end)) => Ok((prefix + v, end)),
        Err(e) => Err(e),
    }
}

proof fn lemma_entries_after_assoc(a: Seq<SeqEntry>, b: Seq<SeqEntry>, x: Result<(Seq<SeqEntry>, int), FormatError>)
    ensures
        entries_after(a, entries_after(b, x)) == entries_after(a + b, x),
{
    match x {
        Ok((v, end)) => {
            assert(a + (b + v) =~= (a + b) + v);
        },
        Err(_) => {},
    }
}

proof fn lemma_add_rows_from_zero(position: int, rpb: int)
    requires
        0 <= position <= u32::MAX,
        rpb > 0,
    ensures
        can_add_sub_beats(MusicalTime { beat: 0, sub_beat: 0 }, position * sub_per_row(rpb)),
{
    let spr = sub_per_row(rpb);
    assert(0 <= spr <= 720720) by (nonlinear_arith)
        requires spr == 720720int / rpb, rpb > 0;
    assert(0 <= position * spr <= position * 720720) by (nonlinear_arith)
        requires 0 <= spr <= 720720, 0 <= position;
    assert((position * spr) / 720720 <= position) by (nonlinear_arith)
        requires 0 <= position * spr <= position * 720720;
}

/// Read the events of one sequence as entries of a track whose clips have
/// `clip_rows` rows.
pub fn read_sequence_events(
    r: &mut BmxReader,
    num_events: u32,
    bpep: u8,
    bpe: u8,
    rpb: u8,
    clip_rows: &[u16],
) -> (res: Result<Vec<SeqEntry>, FormatError>)
    ensures
        final(r).bytes() == old(r).bytes(),
        match sequence_events(old(r).bytes(), old(r).position(), num_events as nat, bpep, bpe, rpb, clip_rows@) {
            Ok((v, end)) => res matches Ok(entries) && entries@ == v && final(r).position() == end,
            Err(e) => res == Err::<Vec<SeqEntry>, FormatError>(e),
        },
        res matches Ok(entries) ==> forall|i: int| 0 <= i < entries@.len() ==>
            (#[trigger] entries@[i]).length == clip_length(clip_rows@, entries@[i].clip_idx as int),
{
    let ghost d = r.bytes();
    let ghost target = sequence_events(d, r.position(), num_events as nat, bpep, bpe, rpb, clip_rows@);
    let mut entries: Vec<SeqEntry> = Vec::new();
    let mut k: u32 = 0;
    assert(entries@ + Seq::<SeqEntry>::empty() =~= entries@);
    while k < num_events
        invariant
            r.bytes() == d,
            d == old(r).bytes(),
            k <= num_events,
            target == sequence_events(d, old(r).position(), num_events as nat, bpep, bpe, rpb, clip_rows@),
            target == entries_after(entries@, sequence_events(d, r.position(), (num_events - k) as nat, bpep, bpe, rpb, clip_rows@)),
            forall|i: int| 0 <= i < entries@.len() ==>
                (#[trigger] entries@[i]).length == clip_length(clip_rows@, entries@[i].clip_idx as int),
        decreases num_events - k,
    {
        let ghost pos = r.position();
        let ghost m = (num_events - k) as nat;
        let position = match r.read_var_uint(bpep) {
            Ok(v) => v,
            Err(e) => return Err(e),
        };
        let raw_event = match r.read_var_uint(bpe) {
            Ok(v) => v,
            Err(e) => return Err(e),
        };
        let event_id = extract_event_id(raw_event, bpe);
        proof {
            assert(position == var_uint_at(d, pos, bpep));
            assert(raw_event == var_uint_at(d, pos + bpep, bpe));
        }
        let ghost before = entries@;
        if event_id >= 16 {
            if rpb == 0 {
                return Err(FormatError::UnsupportedVersion);
            }
            let clip_idx = #[verifier::truncate] ((event_id - 16) as u16);
            let length = if (clip_idx as usize) < clip_rows.len() { clip_rows[clip_idx as usize] } else { 0 };
            proof {
                lemma_add_rows_from_zero(position as int, rpb as int);
            }
            let start = MusicalTime::zero().add_rows(position, rpb as u32);
            entries.push(SeqEntry { start, clip_idx, length, termination: SeqTermination::Natural });
        }
        proof {
            let head = if event_id >= 16 { seq![sequence_entry(position as int, event_id, rpb, clip_rows@)] } else { Seq::empty() };
            assert(entries@ =~= before + head);
            lemma_entries_after_assoc(before, head, sequence_events(d, r.position(), (m - 1) as nat, bpep, bpe, rpb, clip_rows@));
        }
        k = k + 1;
    }
    proof {
        assert(entries@ + Seq::<SeqEntry>::empty() =~= entries@);
    }
    Ok(entries)
}

/// Row counts of the clips of a track.
pub open spec fn clip_rows_of(t: Track) -> Seq<u16> {
    t.clips@.map_values(|c: Clip| c.pattern_spec().rows)
}

/// A track read from a sequence: grouped with the other tracks of the song,
/// bound to a machine node, and each entry as long as its clip.
pub open spec fn sequence_track_ok(t: Track) -> bool {
    &&& t.group == Some(0u16)
    &&& t.machine_node is Some
    &&& !t.muted
    &&& forall|i: int| 0 <= i < t.sequence@.len() ==>
        (#[trigger] t.sequence@[i]).length == clip_length(clip_rows_of(t), t.sequence@[i].clip_idx as int)
}

/// The header of the sequence record at `pos`: its machine index, its event
/// count, the widths of its event positions and events (when it has events),
/// and where its events start.
pub open spec fn seq_record_at(d: Seq<u8>, pos: int) -> Result<(int, u32, u8, u8, int), FormatError> {
    if pos + 6 > d.len() {
        Err(FormatError::UnexpectedEof)
    } else if le32_at(d, pos + 2) > 0 {
        if pos + 8 > d.len() {
            Err(FormatError::UnexpectedEof)
        } else {
            Ok((le16_at(d, pos) as int, le32_at(d, pos + 2) as u32, d[pos + 6], d[pos + 7], pos + 8))
        }
    } else {
        Ok((le16_at(d, pos) as int, 0u32, 0u8, 0u8, pos + 6))
    }
}

/// The records of `k` sequences from `pos` and the position after them, or
/// the error reading them gives.
pub open spec fn seq_records(d: Seq<u8>, pos: int, k: nat, rpb: u8) -> Result<(Seq<(int, u32, u8, u8, int)>, int), FormatError>
    decreases k,
{
    if k == 0 {
        Ok((Seq::empty(), pos))
    } else {
        match seq_record_at(d, pos) {
            Err(e) => Err(e),
            Ok(rec) => match sequence_events(d, rec.4, rec.1 as nat, rec.2, rec.3, rpb, Seq::empty()) {
                Err(e) => Err(e),
                Ok((_, end)) => match seq_records(d, end, (k - 1) as nat, rpb) {
                    Ok((rest, last)) => Ok((seq![rec] + rest, last)),
                    Err(e) => Err(e),
                },
            },
        }
    }
}

/// `prefix` followed by the records of `rest`.
pub open spec fn records_after(
    prefix: Seq<(int, u32, u8, u8, int)>,
    rest: Result<(Seq<(int, u32, u8, u8, int)>, int), FormatError>,
) -> Result<(Seq<(int, u32, u8, u8, int)>, int), FormatError> {
    match rest {
        Ok((v, end)) => Ok((prefix + v, end)),
        Err(e) => Err(e),
    }
}

/// The sequence section at `off`: end-of-song, loop start and loop end
/// words, the sequence count, then the sequence records.
pub open spec fn sequ_records(d: Seq<u8>, off: int, rpb: u8) -> Result<Seq<(int, u32, u8, u8, int)>, FormatError> {
    if off + 14 > d.len() {
        Err(FormatError::UnexpectedEof)
    } else {
        match seq_records(d, off + 14, le16_at(d, off + 12), rpb) {
            Ok((recs, _)) => Ok(recs),
            Err(e) => Err(e),
        }
    }
}

/// Machine `mi` is a known tracker machine.
pub open spec fn seq_tracker(ms: Seq<BmxMachine>, mi: int) -> bool {
    0 <= mi < ms.len() && ms[mi].is_tracker
}

/// Channels of the track of a sequence of machine `mi`: the tracks of a
/// tracker machine, one otherwise.
pub open spec fn seq_channels(ms: Seq<BmxMachine>, mi: int) -> u8 {
    if seq_tracker(ms, mi) { ms[mi].num_tracks as u8 } else { 1 }
}

/// A sequence of machine `mi` gives a track unless the machine is a tracker
/// without tracks.
pub open spec fn seq_kept(ms: Seq<BmxMachine>, mi: int) -> bool {
    !(seq_tracker(ms, mi) && seq_channels(ms, mi) == 0)
}

/// Tracks the first `k` records give.
pub open spec fn kept_before(recs: Seq<(int, u32, u8, u8, int)>, ms: Seq<BmxMachine>, k: int) -> nat
    decreases k,
{
    if k <= 0 {
        0
    } else {
        kept_before(recs, ms, k - 1) + if seq_kept(ms, recs[k - 1].0) { 1nat } else { 0nat }
    }
}

/// The clip made of pattern `bp` for a track of `nch` channels: its cells
/// when it has them, an empty pattern of its length otherwise.
pub open spec fn clip_from(bp: BmxPattern, nch: u8, c: Clip) -> bool {
    let q = c.pattern_spec();
    match bp.pattern {
        Some(p) => {
            &&& q.rows == p.rows
            &&& q.channels == p.channels
            &&& q.ticks_per_row == p.ticks_per_row
            &&& q.rows_per_beat == p.rows_per_beat
            &&& q.data@ == p.data@
        },
        None => {
            &&& q.wf()
            &&& q.rows == bp.ticks
            &&& q.channels == nch
            &&& q.ticks_per_row == 6
            &&& q.rows_per_beat is None
            &&& forall|i: int| 0 <= i < q.data@.len() ==> q.data@[i] == crate::pattern::empty_cell()
        },
    }
}

/// The track of sequence record `rec`, apart from its clips: on its
/// machine's node (node 0 for an unknown machine) and channels, grouped,
/// unmuted, with the entries of the record's events.
pub open spec fn seq_track_head_ok(t: Track, rec: (int, u32, u8, u8, int), ms: Seq<BmxMachine>, d: Seq<u8>, rpb: u8) -> bool {
    let mi = rec.0;
    &&& t.machine_node == Some(if 0 <= mi < ms.len() { ms[mi].node_id } else { 0u16 })
    &&& t.base_channel == (if seq_tracker(ms, mi) { ms[mi].base_channel } else { 0u8 })
    &&& t.num_channels == seq_channels(ms, mi)
    &&& t.group == Some(0u16)
    &&& !t.muted
    &&& sequence_events(d, rec.4, rec.1 as nat, rec.2, rec.3, rpb, clip_rows_of(t)) matches Ok((v, _))
        && t.sequence@ == v
}

/// The track of sequence record `rec`: as `seq_track_head_ok` says, with a
/// clip per pattern of its machine.
pub open spec fn seq_track_ok(
    t: Track,
    rec: (int, u32, u8, u8, int),
    ms: Seq<BmxMachine>,
    all: Seq<Vec<BmxPattern>>,
    d: Seq<u8>,
    rpb: u8,
) -> bool {
    let mi = rec.0;
    let pats: Seq<BmxPattern> = if 0 <= mi < all.len() { all[mi]@ } else { Seq::empty() };
    &&& seq_track_head_ok(t, rec, ms, d, rpb)
    &&& t.clips@.len() == pats.len()
    &&& forall|j: int| 0 <= j < pats.len() ==> clip_from(pats[j], seq_channels(ms, mi), #[trigger] t.clips@[j])
}

/// The tracks the records give, in order.
pub open spec fn seq_tracks_ok(
    tracks: Seq<Track>,
    recs: Seq<(int, u32, u8, u8, int)>,
    ms: Seq<BmxMachine>,
    all: Seq<Vec<BmxPattern>>,
    d: Seq<u8>,
    rpb: u8,
) -> bool {
    &&& tracks.len() == kept_before(recs, ms, recs.len() as int)
    &&& forall|k: int| 0 <= k < recs.len() && seq_kept(ms, recs[k].0) ==>
        seq_track_ok(tracks[kept_before(recs, ms, k) as int], #[trigger] recs[k], ms, all, d, rpb)
}

/// The tracks the records give, in order, apart from their clips.
pub open spec fn seq_track_heads_ok(
    tracks: Seq<Track>,
    recs: Seq<(int, u32, u8, u8, int)>,
    ms: Seq<BmxMachine>,
    d: Seq<u8>,
    rpb: u8,
) -> bool {
    &&& tracks.len() == kept_before(recs, ms, recs.len() as int)
    &&& forall|k: int| 0 <= k < recs.len() && seq_kept(ms, recs[k].0) ==>
        seq_track_head_ok(tracks[kept_before(recs, ms, k) as int], #[trigger] recs[k], ms, d, rpb)
}

/// Where the events end and whether they can be read does not depend on the
/// clips' lengths.
proof fn lemma_events_rows_free(d: Seq<u8>, pos: int, n: nat, bpep: u8, bpe: u8, rpb: u8, a: Seq<u16>, b: Seq<u16>)
    ensures
        sequence_events(d, pos, n, bpep, bpe, rpb, a) is Ok <==> sequence_events(d, pos, n, bpep, bpe, rpb, b) is Ok,
        sequence_events(d, pos, n, bpep, bpe, rpb, a) matches Err(e) ==> sequence_events(d, pos, n, bpep, bpe, rpb, b) == Err::<(Seq<SeqEntry>, int), FormatError>(e),
        sequence_events(d, pos, n, bpep, bpe, rpb, a) matches Ok((_, e1)) ==> sequence_events(d, pos, n, bpep, bpe, rpb, b) matches Ok((_, e2)) && e1 == e2,
    decreases n,
{
    if n > 0 && valid_width(bpep) && pos + bpep <= d.len() && valid_width(bpe) && pos + bpep + bpe <= d.len() {
        lemma_events_rows_free(d, pos + bpep + bpe, (n - 1) as nat, bpep, bpe, rpb, a, b);
    }
}

proof fn lemma_records_after_assoc(
    a: Seq<(int, u32, u8, u8, int)>,
    b: Seq<(int, u32, u8, u8, int)>,
    x: Result<(Seq<(int, u32, u8, u8, int)>, int), FormatError>,
)
    ensures
        records_after(a, records_after(b, x)) == records_after(a + b, x),
{
    match x {
        Ok((v, e)) => {
            assert(a + (b + v) =~= (a + b) + v);
        },
        Err(_) => {},
    }
}

proof fn lemma_kept_push(recs: Seq<(int, u32, u8, u8, int)>, rec: (int, u32, u8, u8, int), ms: Seq<BmxMachine>, k: int)
    requires
        0 <= k <= recs.len(),
    ensures
        kept_before(recs.push(rec), ms, k) == kept_before(recs, ms, k),
    decreases k,
{
    if k > 0 {
        lemma_kept_push(recs, rec, ms, k - 1);
        assert(recs.push(rec)[k - 1] == recs[k - 1]);
    }
}

proof fn lemma_kept_mono(recs: Seq<(int, u32, u8, u8, int)>, ms: Seq<BmxMachine>, a: int, b: int)
    requires
        0 <= a <= b,
    ensures
        kept_before(recs, ms, a) <= kept_before(recs, ms, b),
    decreases b - a,
{
    if a < b {
        lemma_kept_mono(recs, ms, a, b - 1);
    }
}

/// Read the sequences: one track per sequence, holding the clips of its
/// machine's patterns (the cells of a tracker machine's patterns, empty
/// patterns otherwise) and the entries of its events. A tracker machine
/// without tracks gets no track.
#[verifier::spinoff_prover]
#[verifier::rlimit(40)]
fn parse_sequ(
    r: &mut BmxReader,
    entry: &SectionEntry,
    machines: &Vec<BmxMachine>,
    all_patterns: &Vec<Vec<BmxPattern>>,
    rows_per_beat: u8,
) -> (res: Result<Vec<Track>, FormatError>)
    requires
        forall|i: int, j: int| 0 <= i < all_patterns@.len() && 0 <= j < all_patterns@[i]@.len() ==>
            ((#[trigger] all_patterns@[i]@[j]).pattern matches Some(p) ==> p.rows == all_patterns@[i]@[j].ticks),
    ensures
        final(r).bytes() == old(r).bytes(),
        match sequ_records(old(r).bytes(), entry.offset as int, rows_per_beat) {
            Ok(recs) => res matches Ok(tracks)
                && seq_tracks_ok(tracks@, recs, machines@, all_patterns@, old(r).bytes(), rows_per_beat),
            Err(e) => res == Err::<Vec<Track>, FormatError>(e),
        },
        res matches Ok(tracks) ==> forall|i: int| 0 <= i < tracks@.len() ==> sequence_track_ok(#[trigger] tracks@[i]),
{
    let ghost d = r.bytes();
    let ghost off = entry.offset as int;
    let ghost ms = machines@;
    let ghost all = all_patterns@;
    r.seek(entry.offset as usize);
    let _end_of_song = match r.read_u32_le() {
        Ok(v) => v,
        Err(e) => return Err(e),
    };
    let _loop_start = match r.read_u32_le() {
        Ok(v) => v,
        Err(e) => return Err(e),
    };
    let _loop_end = match r.read_u32_le() {
        Ok(v) => v,
        Err(e) => return Err(e),
    };
    let num_sequences = match r.read_u16_le() {
        Ok(v) => v,
        Err(e) => return Err(e),
    };
    let ghost target = seq_records(d, off + 14, num_sequences as nat, rows_per_beat);
    let ghost recs: Seq<(int, u32, u8, u8, int)> = Seq::empty();
    proof {
        assert(records_after(recs, target) == target) by {
            match target {
                Ok((v, e)) => { assert(recs + v =~= v); },
                Err(_) => {},
            }
        }
    }
    let mut tracks: Vec<Track> = Vec::new();
    let mut si: u16 = 0;
    while si < num_sequences
        invariant
            r.bytes() == d,
            d == old(r).bytes(),
            off == entry.offset as int,
            ms == machines@,
            all == all_patterns@,
            forall|i: int, j: int| 0 <= i < all.len() && 0 <= j < all[i]@.len() ==>
                ((#[trigger] all[i]@[j]).pattern matches Some(p) ==> p.rows == all[i]@[j].ticks),
            si <= num_sequences,
            num_sequences == le16_at(d, off + 12),
            off + 14 <= d.len(),
            target == seq_records(d, off + 14, num_sequences as nat, rows_per_beat),
            target == records_after(recs, seq_records(d, r.position(), (num_sequences - si) as nat, rows_per_beat)),
            recs.len() == si,
            seq_tracks_ok(tracks@, recs, ms, all, d, rows_per_beat),
            forall|i: int| 0 <= i < tracks@.len() ==> sequence_track_ok(#[trigger] tracks@[i]),
        decreases num_sequences - si,
    {
        let ghost pos = r.position();
        let ghost rest_n = (num_sequences - si) as nat;
        let machine_idx = match r.read_u16_le() {
            Ok(v) => v as usize,
            Err(e) => {
                proof {
                    lemma_records_after_assoc(recs, Seq::empty(), Err(e));
                }
                return Err(e);
            },
        };
        let num_events = match r.read_u32_le() {
            Ok(v) => v,
            Err(e) => return Err(e),
        };
        let (bpep, bpe) = if num_events > 0 {
            let a = match r.read_u8() {
                Ok(v) => v,
                Err(e) => return Err(e),
            };
            let b = match r.read_u8() {
                Ok(v) => v,
                Err(e) => return Err(e),
            };
            (a, b)
        } else {
            (0, 0)
        };
        let ghost rec = (machine_idx as int, num_events, bpep, bpe, r.position());
        proof {
            assert(seq_record_at(d, pos) == Ok::<(int, u32, u8, u8, int), FormatError>(rec));
        }
        let known = machine_idx < machines.len();
        let is_tracker = known && machines[machine_idx].is_tracker;
        let num_channels: u8 = if is_tracker { #[verifier::truncate] (machines[machine_idx].num_tracks as u8) } else { 1 };
        let ghost pats: Seq<BmxPattern> = if (machine_idx as int) < all.len() { all[machine_idx as int]@ } else { Seq::empty() };
        let mut clips: Vec<Clip> = Vec::new();
        let mut clip_rows: Vec<u16> = Vec::new();
        if machine_idx < all_patterns.len() {
            let pats_v = &all_patterns[machine_idx];
            let mut j: usize = 0;
            while j < pats_v.len()
                invariant
                    j <= pats_v@.len(),
                    pats_v@ == pats,
                    forall|jj: int| 0 <= jj < pats.len() ==> ((#[trigger] pats[jj]).pattern matches Some(p) ==> p.rows == pats[jj].ticks),
                    clips@.len() == j,
                    clip_rows@ == clips@.map_values(|c: Clip| c.pattern_spec().rows),
                    forall|jj: int| 0 <= jj < j ==> clip_from(pats[jj], num_channels, #[trigger] clips@[jj]),
                decreases pats_v@.len() - j,
            {
                let clip = match &pats_v[j].pattern {
                    Some(p) => p.duplicate(),
                    None => Pattern::new(pats_v[j].ticks, num_channels),
                };
                let rows = clip.rows;
                let ghost before = clips@;
                clips.push(Clip::Pattern(clip));
                clip_rows.push(rows);
                proof {
                    assert(clips@.map_values(|c: Clip| c.pattern_spec().rows) =~= before.map_values(|c: Clip| c.pattern_spec().rows).push(rows));
                    assert(clips@[j as int].pattern_spec() == clip);
                    if pats[j as int].pattern is None {
                        assert(clip.wf());
                    }
                }
                j = j + 1;
            }
        }
        proof {
            lemma_events_rows_free(d, rec.4, num_events as nat, bpep, bpe, rows_per_beat, clip_rows@, Seq::empty());
        }
        let entries = match read_sequence_events(r, num_events, bpep, bpe, rows_per_beat, clip_rows.as_slice()) {
            Ok(v) => v,
            Err(e) => {
                proof {
                    lemma_records_after_assoc(recs, Seq::empty(), Err(e));
                }
                return Err(e);
            },
        };
        let ghost end = r.position();
        proof {
            assert(seq_records(d, pos, rest_n, rows_per_beat) == records_after(seq![rec], seq_records(d, end, (rest_n - 1) as nat, rows_per_beat)));
            lemma_records_after_assoc(recs, seq![rec], seq_records(d, end, (rest_n - 1) as nat, rows_per_beat));
        }
        let ghost tracks0 = tracks@;
        if !(is_tracker && num_channels == 0) {
            let node_id = if known { machines[machine_idx].node_id } else { 0 };
            let base_channel = if is_tracker { machines[machine_idx].base_channel } else { 0 };
            let mut track = Track::new(Some(node_id), base_channel, num_channels);
            track.clips = clips;
            track.sequence = entries;
            track.group = Some(0);
            proof {
                assert(clip_rows_of(track) == clip_rows@);
                assert(seq_track_ok(track, rec, ms, all, d, rows_per_beat));
            }
            tracks.push(track);
        }
        proof {
            let recs1 = recs.push(rec);
            lemma_kept_push(recs, rec, ms, recs.len() as int);
            assert forall|k: int| 0 <= k < recs1.len() && seq_kept(ms, recs1[k].0) implies
                seq_track_ok(tracks@[kept_before(recs1, ms, k) as int], #[trigger] recs1[k], ms, all, d, rows_per_beat) by {
                if k < recs.len() {
                    lemma_kept_push(recs, rec, ms, k);
                    lemma_kept_mono(recs, ms, k + 1, recs.len() as int);
                    assert(recs1[k] == recs[k]);
                    assert(tracks@[kept_before(recs, ms, k) as int] == tracks0[kept_before(recs, ms, k) as int]);
                }
            }
            assert(seq![rec] + Seq::<(int, u32, u8, u8, int)>::empty() =~= seq![rec]);
            assert(recs + seq![rec] =~= recs1);
            recs = recs1;
        }
        si = si + 1;
    }
    proof {
        assert(seq_records(d, r.position(), 0, rows_per_beat) == Ok::<(Seq<(int, u32, u8, u8, int)>, int), FormatError>((Seq::empty(), r.position())));
        assert(recs + Seq::<(int, u32, u8, u8, int)>::empty() =~= recs);
    }
    Ok(tracks)
}

// ---------------------------------------------------------------------------
// Wave data
// ---------------------------------------------------------------------------

/// `count` little-endian 16-bit samples from `pos`.
pub open spec fn i16_samples(d: Seq<u8>, pos: int, count: nat) -> Seq<i16> {
    Seq::new(count, |i: int| (le16_at(d, pos + 2 * i) as u16) as i16)
}

/// Read `count` 16-bit samples.
fn read_i16_samples(r: &mut BmxReader, count: usize) -> (res: Result<Vec<i16>, FormatError>)
    ensures
        final(r).bytes() == old(r).bytes(),
        res is Err <==> count > 0 && old(r).position() + 2 * count > old(r).bytes().len(),
        res is Err ==> res == Err::<Vec<i16>, FormatError>(FormatError::UnexpectedEof),
        res matches Ok(v) ==> v@ == i16_samples(old(r).bytes(), old(r).position(), count as nat)
            && final(r).position() == old(r).position() + 2 * count,
{
    let mut samples: Vec<i16> = Vec::new();
    let ghost start = r.position();
    let mut i: usize = 0;
    while i < count
        invariant
            r.bytes() == old(r).bytes(),
            start == old(r).position(),
            i <= count,
            r.position() == start + 2 * i,
            i > 0 ==> start + 2 * i <= r.bytes().len(),
            samples@ =~= i16_samples(r.bytes(), start, i as nat),
        decreases count - i,
    {
        let v = match r.read_u16_le() {
            Ok(v) => v,
            Err(e) => return Err(e),
        };
        samples.push(v as i16);
        i = i + 1;
    }
    Ok(samples)
}

/// Split interleaved left/right samples into two channels; a trailing odd
/// sample goes to the left channel alone.
pub fn deinterleave_stereo(interleaved: &[i16]) -> (r: SampleData)
    ensures
        r matches SampleData::Stereo16(left, right) && {
            &&& left@.len() == (interleaved@.len() + 1) / 2
            &&& right@.len() == interleaved@.len() / 2
            &&& forall|i: int| 0 <= i < left@.len() ==> #[trigger] left@[i] == interleaved@[2 * i]
            &&& forall|i: int| 0 <= i < right@.len() ==> #[trigger] right@[i] == interleaved@[2 * i + 1]
        },
{
    let mut left: Vec<i16> = Vec::new();
    let mut right: Vec<i16> = Vec::new();
    let n = interleaved.len();
    let pairs = n / 2 + n % 2;
    let mut k: usize = 0;
    while k < pairs
        invariant
            n == interleaved@.len(),
            pairs == n / 2 + n % 2,
            k <= pairs,
            left@.len() == k,
            right@.len() == (if 2 * k <= n { k as int } else { (n / 2) as int }),
            forall|m: int| 0 <= m < left@.len() ==> #[trigger] left@[m] == interleaved@[2 * m],
            forall|m: int| 0 <= m < right@.len() ==> #[trigger] right@[m] == interleaved@[2 * m + 1],
        decreases pairs - k,
    {
        let i = 2 * k;
        left.push(interleaved[i]);
        if i + 1 < n {
            right.push(interleaved[i + 1]);
        }
        k = k + 1;
    }
    SampleData::Stereo16(left, right)
}

/// What reading wave data depends on of each wave: its index, its flags
/// and its levels.
pub open spec fn wave_shape(waves: Seq<BmxWave>) -> Seq<(u16, u8, Seq<BmxWaveLevel>)> {
    Seq::new(waves.len(), |i: int| (waves[i].index, waves[i].flags, waves[i].levels@))
}

/// Index of the first wave from `i` on with the given index.
pub open spec fn find_wave_spec(ws: Seq<(u16, u8, Seq<BmxWaveLevel>)>, index: u16, i: int) -> Option<int>
    decreases ws.len() - i,
{
    if i < 0 || i >= ws.len() {
        None
    } else if ws[i].0 == index {
        Some(i)
    } else {
        find_wave_spec(ws, index, i + 1)
    }
}

fn find_wave(waves: &Vec<BmxWave>, index: u16) -> (r: Option<usize>)
    ensures
        r matches Some(i) ==> find_wave_spec(wave_shape(waves@), index, 0) == Some(i as int) && i < waves@.len(),
        r is None ==> find_wave_spec(wave_shape(waves@), index, 0) is None,
{
    let mut i: usize = 0;
    while i < waves.len()
        invariant
            i <= waves@.len(),
            find_wave_spec(wave_shape(waves@), index, 0) == find_wave_spec(wave_shape(waves@), index, i as int),
        decreases waves@.len() - i,
    {
        if waves[i].index == index {
            return Some(i);
        }
        i = i + 1;
    }
    None
}

/// Sample data of the given stereo flag: two channels or one.
pub open spec fn data_matches(data: SampleData, stereo: bool) -> bool {
    if stereo { data is Stereo16 } else { data is Mono16 }
}

/// The byte after bit `e`: the next whole byte after the bits read (at most
/// `usize::MAX`).
pub open spec fn byte_after(e: int) -> int {
    if e % 8 > 0 {
        if e / 8 + 1 <= usize::MAX { e / 8 + 1 } else { usize::MAX as int }
    } else {
        e / 8
    }
}

/// The level of `num_samples` frames at byte `pos`, when it can be read:
/// its samples (interleaved for stereo) and where its data ends. Raw data
/// (`compressed` false) is 16-bit samples that must lie in the data; a
/// compressed level must decompress.
pub open spec fn cwav_level(d: Seq<u8>, pos: int, num_samples: u32, stereo: bool, compressed: bool) -> Option<(Seq<i16>, int)> {
    if compressed {
        match wave_full(d, pos * 8, num_samples as nat, stereo) {
            None => None,
            Some((out, e)) => Some((out, byte_after(e))),
        }
    } else {
        let total = num_samples * (if stereo { 2int } else { 1int });
        if 2 * total > d.len() || pos > d.len() - 2 * total {
            None
        } else {
            Some((i16_samples(d, pos, total as nat), pos + 2 * total))
        }
    }
}

/// The levels `l..` of a wave read from byte `pos`: the samples of each
/// level, until one cannot be read; and where reading stops.
pub open spec fn cwav_levels(d: Seq<u8>, pos: int, levels: Seq<BmxWaveLevel>, l: int, stereo: bool, compressed: bool) -> (Seq<Seq<i16>>, int)
    decreases levels.len() - l,
{
    if l < 0 || l >= levels.len() {
        (Seq::empty(), pos)
    } else {
        match cwav_level(d, pos, levels[l].num_samples, stereo, compressed) {
            None => (Seq::empty(), pos),
            Some((out, e)) => {
                let rest = cwav_levels(d, e, levels, l + 1, stereo, compressed);
                (seq![out] + rest.0, rest.1)
            },
        }
    }
}

/// The wave data records `k` from byte `pos`: per record a wave index and a
/// format byte (a size word follows for raw data), then the levels of the
/// wave with that index, if there is one; reading stops at a format other
/// than raw (0) or compressed (1). Per level read, the wave index, its
/// samples and whether they are stereo; or the error reading a record's
/// header gives.
pub open spec fn cwav_waves(d: Seq<u8>, pos: int, k: nat, ws: Seq<(u16, u8, Seq<BmxWaveLevel>)>) -> Result<Seq<(u16, Seq<i16>, bool)>, FormatError>
    decreases k,
{
    if k == 0 {
        Ok(Seq::empty())
    } else if pos + 3 > d.len() {
        Err(FormatError::UnexpectedEof)
    } else {
        let index = le16_at(d, pos) as u16;
        let format = d[pos + 2];
        let found = find_wave_spec(ws, index, 0);
        let stereo = found matches Some(j) && ws[j].1 & 0x08 != 0;
        if format == 0 && pos + 7 > d.len() {
            Err(FormatError::UnexpectedEof)
        } else if format != 0 && format != 1 {
            Ok(Seq::empty())
        } else {
            let start = if format == 0 { pos + 7 } else { pos + 3 };
            let lv: (Seq<Seq<i16>>, int) = match found {
                Some(j) => cwav_levels(d, start, ws[j].2, 0, stereo, format == 1),
                None => (Seq::empty(), start),
            };
            match cwav_waves(d, lv.1, (k - 1) as nat, ws) {
                Ok(rest) => Ok(lv.0.map_values(|smp: Seq<i16>| (index, smp, stereo)) + rest),
                Err(e) => Err(e),
            }
        }
    }
}

/// The wave data section at `off`: a record count, then the records.
pub open spec fn cwav_section(d: Seq<u8>, off: int, ws: Seq<(u16, u8, Seq<BmxWaveLevel>)>) -> Result<Seq<(u16, Seq<i16>, bool)>, FormatError> {
    if off + 2 > d.len() {
        Err(FormatError::UnexpectedEof)
    } else {
        cwav_waves(d, off + 2, le16_at(d, off), ws)
    }
}

/// Sample data holding a level's samples: one channel, or split into left
/// and right when stereo.
pub open spec fn level_data_ok(data: SampleData, s: (u16, Seq<i16>, bool)) -> bool {
    if s.2 {
        data matches SampleData::Stereo16(left, right) && {
            &&& left@.len() == (s.1.len() + 1) / 2
            &&& right@.len() == s.1.len() / 2
            &&& forall|i: int| 0 <= i < left@.len() ==> #[trigger] left@[i] == s.1[2 * i]
            &&& forall|i: int| 0 <= i < right@.len() ==> #[trigger] right@[i] == s.1[2 * i + 1]
        }
    } else {
        data matches SampleData::Mono16(v) && v@ == s.1
    }
}

/// The entry read for a level: its wave index, and its samples.
pub open spec fn cwav_entry_ok(e: (u16, SampleData), s: (u16, Seq<i16>, bool)) -> bool {
    &&& e.0 == s.0
    &&& level_data_ok(e.1, s)
}

/// Read the levels of wave `index` at the read position, appending an entry
/// per level read; reading stops at the first level that cannot be read.
fn read_cwav_levels(
    r: &mut BmxReader,
    index: u16,
    levels: &Vec<BmxWaveLevel>,
    stereo: bool,
    compressed: bool,
    out: &mut Vec<(u16, SampleData)>,
)
    ensures
        final(r).bytes() == old(r).bytes(),
        final(r).position() == cwav_levels(old(r).bytes(), old(r).position(), levels@, 0, stereo, compressed).1,
        final(out)@.len() == old(out)@.len() + cwav_levels(old(r).bytes(), old(r).position(), levels@, 0, stereo, compressed).0.len(),
        forall|i: int| 0 <= i < old(out)@.len() ==> #[trigger] final(out)@[i] == old(out)@[i],
        forall|i: int| 0 <= i < cwav_levels(old(r).bytes(), old(r).position(), levels@, 0, stereo, compressed).0.len() ==>
            cwav_entry_ok(#[trigger] final(out)@[old(out)@.len() + i],
                (index, cwav_levels(old(r).bytes(), old(r).position(), levels@, 0, stereo, compressed).0[i], stereo)),
{
    let ghost d = r.bytes();
    let ghost target = cwav_levels(d, r.position(), levels@, 0, stereo, compressed);
    let ghost done: Seq<Seq<i16>> = Seq::empty();
    let ghost base = out@.len();
    proof {
        assert(done + target.0 =~= target.0);
    }
    let mut l: usize = 0;
    while l < levels.len()
        invariant_except_break
            target.0 == done + cwav_levels(d, r.position(), levels@, l as int, stereo, compressed).0,
            target.1 == cwav_levels(d, r.position(), levels@, l as int, stereo, compressed).1,
        invariant
            r.bytes() == d,
            d == old(r).bytes(),
            target == cwav_levels(d, old(r).position(), levels@, 0, stereo, compressed),
            l <= levels@.len(),
            base == old(out)@.len(),
            out@.len() == base + done.len(),
            forall|i: int| 0 <= i < base ==> #[trigger] out@[i] == old(out)@[i],
            forall|i: int| 0 <= i < done.len() ==> cwav_entry_ok(#[trigger] out@[base + i], (index, done[i], stereo)),
        ensures
            target.0 == done,
            target.1 == r.position(),
        decreases levels@.len() - l,
    {
        let ghost pos = r.position();
        let ghost out0 = out@;
        if !compressed {
            let channels: u64 = if stereo { 2 } else { 1 };
            let total_samples = levels[l].num_samples as u64 * channels;
            let byte_count = total_samples * 2;
            if byte_count > r.data.len() as u64 || r.pos as u64 > r.data.len() as u64 - byte_count {
                proof {
                    assert(cwav_level(d, pos, levels@[l as int].num_samples, stereo, compressed) is None);
                    assert(done + Seq::<Seq<i16>>::empty() =~= done);
                }
                break;
            }
            let data = match read_i16_samples(r, total_samples as usize) {
                Ok(v) => v,
                Err(e) => {
                    break;
                },
            };
            let sample_data = if stereo { deinterleave_stereo(data.as_slice()) } else { SampleData::Mono16(data) };
            out.push((index, sample_data));
            proof {
                assert(cwav_level(d, pos, levels@[l as int].num_samples, stereo, compressed)
                    == Some::<(Seq<i16>, int)>((data@, r.position())));
                let rest = cwav_levels(d, r.position(), levels@, l + 1, stereo, compressed);
                assert(done + (seq![data@] + rest.0) =~= done.push(data@) + rest.0);
                assert forall|i: int| 0 <= i < done.len() + 1 implies cwav_entry_ok(#[trigger] out@[base + i], (index, done.push(data@)[i], stereo)) by {
                    if i < done.len() {
                        assert(out@[base + i] == out0[base + i]);
                    }
                }
                done = done.push(data@);
            }
        } else {
            let mut br = BitReader::new(r.data, r.pos);
            match decompress_wave(&mut br, levels[l].num_samples as usize, stereo) {
                Ok(data) => {
                    r.pos = br.byte_pos();
                    let sample_data = if stereo { deinterleave_stereo(data.as_slice()) } else { SampleData::Mono16(data) };
                    out.push((index, sample_data));
                    proof {
                        assert(cwav_level(d, pos, levels@[l as int].num_samples, stereo, compressed)
                            == Some::<(Seq<i16>, int)>((data@, r.position())));
                        let rest = cwav_levels(d, r.position(), levels@, l + 1, stereo, compressed);
                        assert(done + (seq![data@] + rest.0) =~= done.push(data@) + rest.0);
                        assert forall|i: int| 0 <= i < done.len() + 1 implies cwav_entry_ok(#[trigger] out@[base + i], (index, done.push(data@)[i], stereo)) by {
                            if i < done.len() {
                                assert(out@[base + i] == out0[base + i]);
                            }
                        }
                        done = done.push(data@);
                    }
                },
                Err(_) => {
                    proof {
                        assert(cwav_level(d, pos, levels@[l as int].num_samples, stereo, compressed) is None);
                        assert(done + Seq::<Seq<i16>>::empty() =~= done);
                    }
                    break;
                },
            }
        }
        l = l + 1;
    }
    proof {
        if l >= levels@.len() {
            assert(done + Seq::<Seq<i16>>::empty() =~= done);
        }
    }
}

/// Read the wave data: per wave its index, then raw (format 0) or
/// compressed (format 1) samples for each of its levels. Reading stops at
/// an unknown format; a level that is cut short or does not decompress
/// ends its wave. Each level read gives an entry for the wave's index.
fn parse_cwav(r: &mut BmxReader, entry: &SectionEntry, bmx_waves: &Vec<BmxWave>) -> (res: Result<Vec<(u16, SampleData)>, FormatError>)
    ensures
        final(r).bytes() == old(r).bytes(),
        match cwav_section(old(r).bytes(), entry.offset as int, wave_shape(bmx_waves@)) {
            Ok(es) => res matches Ok(v) && v@.len() == es.len()
                && forall|i: int| 0 <= i < es.len() ==> cwav_entry_ok(#[trigger] v@[i], es[i]),
            Err(e) => res == Err::<Vec<(u16, SampleData)>, FormatError>(e),
        },
{
    let ghost d = r.bytes();
    let ghost waves = wave_shape(bmx_waves@);
    r.seek(entry.offset as usize);
    let num_waves = match r.read_u16_le() {
        Ok(n) => n,
        Err(e) => return Err(e),
    };
    let ghost target = cwav_waves(d, entry.offset as int + 2, num_waves as nat, waves);
    let ghost done: Seq<(u16, Seq<i16>, bool)> = Seq::empty();
    proof {
        match target {
            Ok(v) => { assert(done + v =~= v); },
            Err(_) => {},
        }
    }
    let mut wave_data: Vec<(u16, SampleData)> = Vec::new();
    let mut wi: u16 = 0;
    while wi < num_waves
        invariant_except_break
            target == (match cwav_waves(d, r.position(), (num_waves - wi) as nat, waves) {
                Ok(rest) => Ok(done + rest),
                Err(e) => Err(e),
            }),
        invariant
            r.bytes() == d,
            d == old(r).bytes(),
            waves == wave_shape(bmx_waves@),
            wi <= num_waves,
            entry.offset as int + 2 <= d.len(),
            num_waves == le16_at(d, entry.offset as int),
            target == cwav_waves(d, entry.offset as int + 2, num_waves as nat, waves),
            wave_data@.len() == done.len(),
            forall|i: int| 0 <= i < done.len() ==> cwav_entry_ok(#[trigger] wave_data@[i], done[i]),
        ensures
            target == Ok::<Seq<(u16, Seq<i16>, bool)>, FormatError>(done),
        decreases num_waves - wi,
    {
        let ghost pos = r.position();
        let ghost left = (num_waves - wi) as nat;
        let index = match r.read_u16_le() {
            Ok(v) => v,
            Err(e) => {
                proof {
                    assert(cwav_waves(d, pos, left, waves) == Err::<Seq<(u16, Seq<i16>, bool)>, FormatError>(FormatError::UnexpectedEof));
                }
                return Err(e);
            },
        };
        let format = match r.read_u8() {
            Ok(v) => v,
            Err(e) => {
                proof {
                    assert(cwav_waves(d, pos, left, waves) == Err::<Seq<(u16, Seq<i16>, bool)>, FormatError>(FormatError::UnexpectedEof));
                }
                return Err(e);
            },
        };
        let found = find_wave(bmx_waves, index);
        let is_stereo = match found {
            Some(j) => bmx_waves[j].flags & 0x08 != 0,
            None => false,
        };
        if format == 0 {
            let _size_field = match r.read_u32_le() {
                Ok(v) => v,
                Err(e) => return Err(e),
            };
        } else if format != 1 {
            proof {
                assert(done + Seq::<(u16, Seq<i16>, bool)>::empty() =~= done);
            }
            break;
        }
        let ghost start = r.position();
        let ghost wd0 = wave_data@;
        match found {
            Some(j) => {
                read_cwav_levels(r, index, &bmx_waves[j].levels, is_stereo, format == 1, &mut wave_data);
            },
            None => {},
        }
        proof {
            let lv: (Seq<Seq<i16>>, int) = match find_wave_spec(waves, index, 0) {
                Some(j) => cwav_levels(d, start, waves[j].2, 0, is_stereo, format == 1),
                None => (Seq::empty(), start),
            };
            assert(lv.1 == r.position());
            let added = lv.0.map_values(|smp: Seq<i16>| (index, smp, is_stereo));
            match cwav_waves(d, r.position(), (left - 1) as nat, waves) {
                Ok(rest) => {
                    assert(done + (added + rest) =~= (done + added) + rest);
                },
                Err(_) => {},
            }
            assert forall|i: int| 0 <= i < done.len() + added.len() implies cwav_entry_ok(#[trigger] wave_data@[i], (done + added)[i]) by {
                if i < done.len() {
                    assert(wave_data@[i] == wd0[i]);
                } else {
                    let k = i - done.len();
                    assert((done + added)[i] == added[k]);
                    assert(added[k] == (index, lv.0[k], is_stereo));
                    assert(found is Some);
                    assert(wave_data@[wd0.len() + k] == wave_data@[i]);
                    assert(cwav_entry_ok(wave_data@[wd0.len() + k], (index, lv.0[k], is_stereo)));
                }
            }
            done = done + added;
        }
        wi = wi + 1;
    }
    Ok(wave_data)
}

// ---------------------------------------------------------------------------
// Samples
// ---------------------------------------------------------------------------

/// Default volume (0-64) of a wave whose volume is the 32-bit float with
/// these bits (1.0 = full): the volume times 64, clamped to 0..=64 and
/// rounded toward zero; 0 for NaN and for negative volumes.
pub open spec fn wave_volume_spec(bits: u32) -> u8 {
    let e = (bits >> 23u32) & 0xFFu32;
    let frac = bits & 0x7F_FFFFu32;
    if e == 255 && frac != 0 {
        0
    } else if bits >= 0x8000_0000 {
        0
    } else if e >= 127 {
        64
    } else if e <= 112 {
        0
    } else {
        ((0x80_0000u32 | frac) >> ((144 - e) as u32)) as u8
    }
}

/// The default volume of a wave from the bits of its float volume.
pub fn wave_volume(bits: u32) -> (r: u8)
    ensures
        r == wave_volume_spec(bits),
{
    let e = (bits >> 23u32) & 0xFFu32;
    let frac = bits & 0x7F_FFFFu32;
    if e == 255 && frac != 0 {
        0
    } else if bits >= 0x8000_0000 {
        0
    } else if e >= 127 {
        64
    } else if e <= 112 {
        0
    } else {
        let m = 0x80_0000u32 | frac;
        let sh: u32 = 144 - e;
        let v = m >> sh;
        assert(v < 64) by (bit_vector)
            requires m == 0x80_0000u32 | (bits & 0x7F_FFFFu32), v == m >> sh, 18 <= sh <= 31;
        v as u8
    }
}

/// The same samples in the same layout.
pub open spec fn same_data(a: SampleData, b: SampleData) -> bool {
    match (a, b) {
        (SampleData::Mono8(x), SampleData::Mono8(y)) => x@ == y@,
        (SampleData::Mono16(x), SampleData::Mono16(y)) => x@ == y@,
        (SampleData::Stereo8(x, u), SampleData::Stereo8(y, w)) => x@ == y@ && u@ == w@,
        (SampleData::Stereo16(x, u), SampleData::Stereo16(y, w)) => x@ == y@ && u@ == w@,
        _ => false,
    }
}

fn copy_vec<T: Copy>(v: &Vec<T>) -> (r: Vec<T>)
    ensures
        r@ == v@,
{
    let mut out: Vec<T> = Vec::new();
    let mut i: usize = 0;
    while i < v.len()
        invariant
            i <= v@.len(),
            out@ == v@.take(i as int),
        decreases v@.len() - i,
    {
        out.push(v[i]);
        proof {
            assert(v@.take(i + 1) =~= v@.take(i as int).push(v@[i as int]));
        }
        i = i + 1;
    }
    proof {
        assert(v@.take(i as int) =~= v@);
    }
    out
}

/// A copy of sample data.
pub fn copy_sample_data(d: &SampleData) -> (r: SampleData)
    ensures
        same_data(r, *d),
{
    match d {
        SampleData::Mono8(v) => SampleData::Mono8(copy_vec(v)),
        SampleData::Mono16(v) => SampleData::Mono16(copy_vec(v)),
        SampleData::Stereo8(l, r) => SampleData::Stereo8(copy_vec(l), copy_vec(r)),
        SampleData::Stereo16(l, r) => SampleData::Stereo16(copy_vec(l), copy_vec(r)),
    }
}

/// Index of the first wave data entry from `i` on for wave `index`.
pub open spec fn first_data_for(wave_data: Seq<(u16, SampleData)>, index: u16, i: int) -> Option<int>
    decreases wave_data.len() - i,
{
    if i < 0 || i >= wave_data.len() {
        None
    } else if wave_data[i].0 == index {
        Some(i)
    } else {
        first_data_for(wave_data, index, i + 1)
    }
}

fn find_data(wave_data: &Vec<(u16, SampleData)>, index: u16) -> (r: Option<usize>)
    ensures
        r matches Some(k) ==> first_data_for(wave_data@, index, 0) == Some(k as int) && k < wave_data@.len(),
        r is None ==> first_data_for(wave_data@, index, 0) is None,
{
    let mut k: usize = 0;
    while k < wave_data.len()
        invariant
            k <= wave_data@.len(),
            first_data_for(wave_data@, index, 0) == first_data_for(wave_data@, index, k as int),
        decreases wave_data@.len() - k,
    {
        if wave_data[k].0 == index {
            return Some(k);
        }
        k = k + 1;
    }
    None
}

/// The loop of a wave from its flags: none without the loop flag, else
/// ping-pong or forward.
pub open spec fn wave_loop_spec(flags: u8) -> LoopType {
    if flags & 0x01 == 0 {
        LoopType::NoLoop
    } else if flags & 0x10 != 0 {
        LoopType::PingPong
    } else {
        LoopType::Forward
    }
}

/// The sample made of a wave and its data entries. Its C-4 speed is the
/// sample rate of the wave's first level (44100 Hz without levels), before
/// any root-note adjustment.
pub open spec fn wave_sample_ok(s: Sample, w: BmxWave, wave_data: Seq<(u16, SampleData)>) -> bool {
    &&& name26_bytes(s.name) == fitted(vstd::utf8::encode_utf8(w.name@), 26)
    &&& s.loop_type == wave_loop_spec(w.flags)
    &&& s.loop_start == (if w.levels@.len() > 0 { w.levels@[0].loop_start } else { 0 })
    &&& s.loop_end == (if w.levels@.len() > 0 { w.levels@[0].loop_end } else { 0 })
    &&& s.c4_speed == (if w.levels@.len() > 0 { w.levels@[0].sample_rate } else { 44100 })
    &&& s.default_volume == wave_volume_spec(w.volume_bits)
    &&& s.default_pan == 0
    &&& s.vibrato.is_none()
    &&& match first_data_for(wave_data, w.index, 0) {
        Some(k) => same_data(s.data, wave_data[k].1),
        None => s.data matches SampleData::Mono16(v) && v@.len() == 0,
    }
}

/// One sample per wave.
pub fn build_samples(bmx_waves: &Vec<BmxWave>, wave_data: &Vec<(u16, SampleData)>) -> (r: Vec<Sample>)
    ensures
        r@.len() == bmx_waves@.len(),
        forall|i: int| 0 <= i < r@.len() ==> wave_sample_ok(#[trigger] r@[i], bmx_waves@[i], wave_data@),
{
    let mut samples: Vec<Sample> = Vec::new();
    let mut i: usize = 0;
    while i < bmx_waves.len()
        invariant
            i <= bmx_waves@.len(),
            samples@.len() == i,
            forall|k: int| 0 <= k < samples@.len() ==> wave_sample_ok(#[trigger] samples@[k], bmx_waves@[k], wave_data@),
        decreases bmx_waves@.len() - i,
    {
        let bw = &bmx_waves[i];
        let loop_type = if bw.flags & 0x01 == 0 {
            LoopType::NoLoop
        } else if bw.flags & 0x10 != 0 {
            LoopType::PingPong
        } else {
            LoopType::Forward
        };
        let data = match find_data(wave_data, bw.index) {
            Some(k) => copy_sample_data(&wave_data[k].1),
            None => SampleData::Mono16(Vec::new()),
        };
        let mut sample = Sample::new(bw.name.as_str());
        sample.data = data;
        sample.loop_type = loop_type;
        if bw.levels.len() > 0 {
            sample.loop_start = bw.levels[0].loop_start;
            sample.loop_end = bw.levels[0].loop_end;
            sample.c4_speed = bw.levels[0].sample_rate;
        } else {
            sample.loop_start = 0;
            sample.loop_end = 0;
            sample.c4_speed = 44100;
        }
        sample.default_volume = wave_volume(bw.volume_bits);
        samples.push(sample);
        i = i + 1;
    }
    samples
}

// ---------------------------------------------------------------------------
// Song assembly
// ---------------------------------------------------------------------------

/// The version string of the file (read, not used).
fn parse_bver(r: &mut BmxReader, entry: &SectionEntry) -> (res: Result<String, FormatError>)
    ensures
        final(r).bytes() == old(r).bytes(),
        res is Err <==> entry.offset > old(r).bytes().len(),
        res is Err ==> res == Err::<String, FormatError>(FormatError::UnexpectedEof),
        res matches Ok(v) ==> v@ == lossy_text(old(r).bytes().subrange(entry.offset as int, string_end(old(r).bytes(), entry.offset as int))),
{
    r.seek(entry.offset as usize);
    if r.pos > r.data.len() {
        return Err(FormatError::UnexpectedEof);
    }
    r.read_null_string()
}

/// A loaded BMX song with what finishing it needs: the master's tempo, and
/// the root note of each sample's wave (`None` for a wave without levels),
/// by which its C-4 speed is still to be adjusted.
pub struct BmxSong {
    /// The song
    pub song: Song,
    /// Beats per minute of the master
    pub bpm: u16,
    /// Ticks per beat of the master
    pub tpb: u8,
    /// Root note of each sample's first wave level
    pub root_notes: Vec<Option<u8>>,
    /// The machines, in file order, with their nodes and input counts
    pub machines: Vec<BmxMachine>,
    /// The waves of the wave table, in file order
    pub waves: Vec<BmxWave>,
}

/// Bytes per tick of each machine's parameters, when the file has a
/// parameter section.
pub open spec fn para_sizes_of(d: Seq<u8>) -> Option<Seq<(int, int)>> {
    if section_listed(d, seq![80u8, 65, 82, 65]) {
        match para_section(d, section_offset(d, seq![80u8, 65, 82, 65])) {
            Ok(recs) => Some(para_record_sizes(d, recs)),
            Err(_) => None,
        }
    } else {
        None
    }
}

/// The directory of `d` is readable and names a section `name`.
pub open spec fn section_listed(d: Seq<u8>, name: Seq<u8>) -> bool {
    directory_spec(d) matches Ok(dir) && dir_find(dir, name, 0) is Some
}

/// What a wave gives its sample, apart from the sample data: the loop of
/// its first level by its flags, the sample rate of its first level (44100
/// Hz without levels) as C-4 speed, its volume, centred, no vibrato.
pub open spec fn wave_sample_meta_ok(s: Sample, w: BmxWave) -> bool {
    &&& s.loop_type == wave_loop_spec(w.flags)
    &&& s.loop_start == (if w.levels@.len() > 0 { w.levels@[0].loop_start } else { 0 })
    &&& s.loop_end == (if w.levels@.len() > 0 { w.levels@[0].loop_end } else { 0 })
    &&& s.c4_speed == (if w.levels@.len() > 0 { w.levels@[0].sample_rate } else { 44100 })
    &&& s.default_volume == wave_volume_spec(w.volume_bits)
    &&& s.default_pan == 0
    &&& s.vibrato.is_none()
}

/// Tracker tempo of a Buzz tempo at speed 1: `bpm * tpb / 24`, clamped to
/// 1..=255.
pub open spec fn bmx_tempo_spec(bpm: u16, tpb: u8) -> u8 {
    let t = (bpm * tpb) / 24;
    if t < 1 { 1 } else if t > 255 { 255 } else { t as u8 }
}

/// The directory of `d` is readable and names a section `name`.
pub open spec fn section_present(d: Seq<u8>, name: Seq<u8>) -> bool {
    directory_spec(d) matches Ok(dir) && exists|k: int| 0 <= k < dir.len() && (#[trigger] dir[k]).0 == name
}

/// Index of the first directory entry named `name`, from entry `i` on.
pub open spec fn dir_find(dir: Seq<(Seq<u8>, u32, u32)>, name: Seq<u8>, i: int) -> Option<int>
    decreases dir.len() - i,
{
    if i < 0 || i >= dir.len() {
        None
    } else if dir[i].0 == name {
        Some(i)
    } else {
        dir_find(dir, name, i + 1)
    }
}

/// Offset of the first section named `name` in the directory of `d` (0 when
/// there is none).
pub open spec fn section_offset(d: Seq<u8>, name: Seq<u8>) -> int {
    match directory_spec(d) {
        Ok(dir) => match dir_find(dir, name, 0) {
            Some(k) => dir[k].1 as int,
            None => 0,
        },
        Err(_) => 0,
    }
}

proof fn lemma_find_matches_dir(sections: Seq<SectionEntry>, dir: Seq<(Seq<u8>, u32, u32)>, name: Seq<u8>, i: int)
    requires
        0 <= i,
        sections.len() == dir.len(),
        forall|k: int| 0 <= k < dir.len() ==> ((#[trigger] sections[k]).name@, sections[k].offset, sections[k].size) == dir[k],
    ensures
        find_section_spec(sections, name, i) == dir_find(dir, name, i),
    decreases dir.len() - i,
{
    if i < dir.len() {
        assert((sections[i].name@, sections[i].offset, sections[i].size) == dir[i]);
        lemma_find_matches_dir(sections, dir, name, i + 1);
    }
}

proof fn lemma_dir_find(dir: Seq<(Seq<u8>, u32, u32)>, name: Seq<u8>, i: int)
    requires
        0 <= i,
    ensures
        dir_find(dir, name, i) matches Some(k) ==> i <= k < dir.len() && dir[k].0 == name,
        dir_find(dir, name, i) is None ==> forall|k: int| i <= k < dir.len() ==> (#[trigger] dir[k]).0 != name,
    decreases dir.len() - i,
{
    if i < dir.len() && dir[i].0 != name {
        lemma_dir_find(dir, name, i + 1);
    }
}

/// A section is named in the directory exactly when the first entry with
/// its name is found.
pub proof fn lemma_section_listed_present(d: Seq<u8>, name: Seq<u8>)
    ensures
        section_listed(d, name) <==> section_present(d, name),
{
    if directory_spec(d) is Ok {
        lemma_dir_find(directory_spec(d)->Ok_0, name, 0);
    }
}

/// The directory read from `d` as `sections` has an entry `name` exactly
/// when the file names that section, at the section's offset.
proof fn lemma_section_entry(sections: Seq<SectionEntry>, d: Seq<u8>, name: Seq<u8>)
    requires
        directory_spec(d) matches Ok(dir) && sections.len() == dir.len()
            && forall|k: int| 0 <= k < dir.len() ==> ((#[trigger] sections[k]).name@, sections[k].offset, sections[k].size) == dir[k],
    ensures
        find_section_spec(sections, name, 0) is Some <==> section_listed(d, name),
        section_listed(d, name) <==> section_present(d, name),
        find_section_spec(sections, name, 0) matches Some(k) ==> 0 <= k < sections.len() && sections[k].offset == section_offset(d, name),
{
    let dir = directory_spec(d)->Ok_0;
    lemma_find_matches_dir(sections, dir, name, 0);
    lemma_section_listed_present(d, name);
    lemma_dir_find(dir, name, 0);
    if find_section_spec(sections, name, 0) is Some {
        let k = find_section_spec(sections, name, 0)->Some_0;
        assert((sections[k].name@, sections[k].offset, sections[k].size) == dir[k]);
    }
}

fn required_section(sections: &Vec<SectionEntry>, name: [u8; 4], Ghost(d): Ghost<Seq<u8>>) -> (r: Result<SectionEntry, FormatError>)
    requires
        directory_spec(d) matches Ok(dir) && sections@.len() == dir.len()
            && forall|k: int| 0 <= k < dir.len() ==> ((#[trigger] sections@[k]).name@, sections@[k].offset, sections@[k].size) == dir[k],
    ensures
        r is Ok ==> section_present(d, name@),
        r matches Ok(e) ==> e.offset == section_offset(d, name@),
        r is Err ==> r == Err::<SectionEntry, FormatError>(FormatError::InvalidHeader),
        r is Err <==> !section_present(d, name@),
{
    proof {
        lemma_section_entry(sections@, d, name@);
        lemma_find_matches_dir(sections@, directory_spec(d)->Ok_0, name@, 0);
    }
    match find_section(sections, name) {
        Some(e) => {
            proof {
                lemma_found_section(sections@, name@, 0);
                let k = find_section_spec(sections@, name@, 0)->Some_0;
                let dir = directory_spec(d)->Ok_0;
                assert(dir[k].0 == name@);
            }
            Ok(e)
        },
        None => Err(FormatError::InvalidHeader),
    }
}

proof fn lemma_found_section(sections: Seq<SectionEntry>, name: Seq<u8>, i: int)
    requires
        0 <= i,
    ensures
        find_section_spec(sections, name, i) matches Some(k) ==> i <= k < sections.len() && sections[k].name@ == name,
    decreases sections.len() - i,
{
    if i < sections.len() && sections[i].name@ != name {
        lemma_found_section(sections, name, i + 1);
    }
}

/// Read the wires of the connection section `entry`: a graph connection per
/// wire between two machines, and each machine's input count.
fn read_wires(
    r: &mut BmxReader,
    entry: &SectionEntry,
    machines: &mut Vec<BmxMachine>,
    graph: &mut AudioGraph,
    Ghost(d): Ghost<Seq<u8>>,
) -> (res: Result<(), FormatError>)
    requires
        old(r).bytes() == d,
        machine_nodes_ok(*old(graph), old(machines)@),
        forall|i: int| 0 <= i < old(machines)@.len() ==> (#[trigger] old(machines)@[i]).num_inputs == 0,
    ensures
        final(r).bytes() == d,
        res is Ok <==> conn_section_fits(d, entry.offset as int),
        res is Err ==> res == Err::<(), FormatError>(FormatError::UnexpectedEof),
        res is Ok ==> {
            let off = entry.offset as int;
            let wires = le16_at(d, off) as int;
            &&& conn_section_fits(d, off)
            &&& same_but_inputs(old(machines)@, final(machines)@)
            &&& final(graph).nodes@ == old(graph).nodes@
            &&& machine_nodes_ok(*final(graph), final(machines)@)
            &&& final(graph).connections@ == old(graph).connections@ + wire_conns(d, off, final(machines)@, wires)
            &&& forall|k: int| 0 <= k < final(machines)@.len() ==>
                (#[trigger] final(machines)@[k]).num_inputs == wire_inputs(d, off, final(machines)@.len() as int, k, wires)
        },
{
    let ghost ms_read = machines@;
    let ghost g_mach = *graph;
    let ghost conn_off = entry.offset as int;
    match parse_conn(r, entry, machines, graph) {
        Ok(()) => {},
        Err(e) => return Err(e),
    }
    proof {
        let wires = le16_at(d, conn_off) as int;
        assert(same_but_inputs(ms_read, machines@)) by {
            assert forall|k: int| 0 <= k < ms_read.len() implies #[trigger] machines@[k] == (BmxMachine { num_inputs: machines@[k].num_inputs, ..ms_read[k] }) by {
                assert(machines@[k] == (BmxMachine {
                    num_inputs: wire_inputs(d, conn_off, ms_read.len() as int, k, wires) as u16,
                    ..ms_read[k]
                }));
            }
        }
        lemma_nodes_same_but_inputs(g_mach, ms_read, machines@);
        assert forall|k: int| 0 <= k < machines@.len() implies #[trigger] machine_node_ok(*graph, machines@, k) by {
            assert(machine_node_ok(g_mach, machines@, k));
        }
        lemma_wires_same_but_inputs(d, conn_off, ms_read, machines@, wires);
        assert forall|k: int| 0 <= k < machines@.len() implies
            (#[trigger] machines@[k]).num_inputs == wire_inputs(d, conn_off, machines@.len() as int, k, wires) by {
            lemma_wire_inputs_bound(d, conn_off, ms_read.len() as int, k, wires);
        }
    }
    Ok(())
}

/// Read the wave table, when the file has one; no waves otherwise.
fn read_wave_table(r: &mut BmxReader, sections: &Vec<SectionEntry>, Ghost(d): Ghost<Seq<u8>>) -> (res: Result<Vec<BmxWave>, FormatError>)
    requires
        old(r).bytes() == d,
        directory_spec(d) matches Ok(dir) && sections@.len() == dir.len()
            && forall|k: int| 0 <= k < dir.len() ==> ((#[trigger] sections@[k]).name@, sections@[k].offset, sections@[k].size) == dir[k],
    ensures
        final(r).bytes() == d,
        !section_listed(d, seq![87u8, 65, 86, 84]) ==> res is Ok,
        section_listed(d, seq![87u8, 65, 86, 84]) ==> match wavt_records(d, section_offset(d, seq![87u8, 65, 86, 84])) {
            Ok(_) => res is Ok,
            Err(e) => res == Err::<Vec<BmxWave>, FormatError>(e),
        },
        res matches Ok(waves) ==> {
            &&& section_listed(d, seq![87u8, 65, 86, 84]) ==> (wavt_records(d, section_offset(d, seq![87u8, 65, 86, 84])) matches Ok(recs)
                && waves@.len() == recs.len()
                && forall|i: int| 0 <= i < recs.len() ==> wave_ok(#[trigger] waves@[i], d, recs[i]))
            &&& !section_listed(d, seq![87u8, 65, 86, 84]) ==> waves@.len() == 0
        },
{
    proof {
        lemma_find_matches_dir(sections@, directory_spec(d)->Ok_0, seq![87u8, 65, 86, 84], 0);
        assert([87u8, 65, 86, 84]@ == seq![87u8, 65, 86, 84]);
    }
    match find_section(sections, [87u8, 65, 86, 84]) {
        Some(entry) => {
            proof {
                let dir = directory_spec(d)->Ok_0;
                let k = dir_find(dir, seq![87u8, 65, 86, 84], 0)->Some_0;
                lemma_found_section(sections@, seq![87u8, 65, 86, 84], 0);
                assert((sections@[k].name@, sections@[k].offset, sections@[k].size) == dir[k]);
                assert(entry.offset as int == section_offset(d, seq![87u8, 65, 86, 84]));
            }
            parse_wavt(r, &entry)
        },
        None => Ok(Vec::new()),
    }
}

/// The song of what was read: a "BMX Song" at speed 1 with the master's
/// tempo, `num_channels` tracker channels panned Amiga-style, the graph and
/// tracks, and a sample and an instrument per wave.
fn assemble_bmx(
    graph: AudioGraph,
    tracks: Vec<Track>,
    machines: Vec<BmxMachine>,
    bmx_waves: Vec<BmxWave>,
    wave_data: &Vec<(u16, SampleData)>,
    master: MasterParams,
    num_channels: u8,
) -> (b: BmxSong)
    ensures
        b.song.graph == graph,
        b.song.tracks@ == tracks@,
        b.machines@ == machines@,
        b.waves@ == bmx_waves@,
        b.bpm == master.bpm,
        b.tpb == master.tpb,
        name32_bytes(b.song.title) == fitted("BMX Song".spec_bytes(), 32),
        b.song.initial_speed == 1,
        b.song.rows_per_beat == b.tpb,
        b.song.initial_tempo == bmx_tempo_spec(b.bpm, b.tpb),
        b.song.global_volume == 64,
        b.song.channels@.len() == num_channels,
        forall|i: int| 0 <= i < b.song.channels@.len() ==> #[trigger] b.song.channels@[i] == (ChannelSettings {
            initial_pan: amiga_pan(i),
            initial_vol: 64,
            muted: false,
        }),
        b.song.instruments@.len() == b.song.samples@.len(),
        b.root_notes@.len() == b.song.samples@.len(),
        b.song.samples@.len() == bmx_waves@.len(),
        forall|i: int, n: int| 0 <= i < b.song.instruments@.len() && 0 <= n < 120 ==>
            #[trigger] b.song.instruments@[i].sample_map@[n] == i as u8,
        forall|i: int| 0 <= i < bmx_waves@.len() ==> wave_sample_ok(#[trigger] b.song.samples@[i], bmx_waves@[i], wave_data@),
        forall|i: int| 0 <= i < bmx_waves@.len() ==>
            name26_bytes((#[trigger] b.song.instruments@[i]).name) == fitted(vstd::utf8::encode_utf8(bmx_waves@[i].name@), 26),
        forall|i: int| 0 <= i < bmx_waves@.len() ==> #[trigger] b.root_notes@[i]
            == (if bmx_waves@[i].levels@.len() > 0 { Some(bmx_waves@[i].levels@[0].root_note) } else { None }),
{
    let mut song = Song::new("BMX Song");
    let mut c: u8 = 0;
    while c < num_channels
        invariant
            c <= num_channels,
            song.channels@.len() == c,
            forall|j: int| 0 <= j < c ==> #[trigger] song.channels@[j] == (ChannelSettings {
                initial_pan: amiga_pan(j),
                initial_vol: 64,
                muted: false,
            }),
            name32_bytes(song.title) == fitted("BMX Song".spec_bytes(), 32),
            default_settings(song),
        decreases num_channels - c,
    {
        let pan: i8 = if c % 4 == 0 || c % 4 == 3 { -64 } else { 64 };
        song.channels.push(ChannelSettings { initial_pan: pan, initial_vol: 64, muted: false });
        c = c + 1;
    }
    let mut instruments: Vec<Instrument> = Vec::new();
    let mut root_notes: Vec<Option<u8>> = Vec::new();
    let mut w: usize = 0;
    while w < bmx_waves.len()
        invariant
            w <= bmx_waves@.len(),
            instruments@.len() == w,
            root_notes@.len() == w,
            forall|k: int, n: int| 0 <= k < w && 0 <= n < 120 ==> #[trigger] instruments@[k].sample_map@[n] == k as u8,
            forall|k: int| 0 <= k < w ==> name26_bytes(#[trigger] instruments@[k].name) == fitted(vstd::utf8::encode_utf8(bmx_waves@[k].name@), 26),
            forall|k: int| 0 <= k < w ==> #[trigger] root_notes@[k]
                == (if bmx_waves@[k].levels@.len() > 0 { Some(bmx_waves@[k].levels@[0].root_note) } else { None }),
        decreases bmx_waves@.len() - w,
    {
        let mut inst = Instrument::new(bmx_waves[w].name.as_str());
        inst.set_single_sample(#[verifier::truncate] (w as u8));
        instruments.push(inst);
        let root = if bmx_waves[w].levels.len() > 0 { Some(bmx_waves[w].levels[0].root_note) } else { None };
        root_notes.push(root);
        w = w + 1;
    }
    let samples = build_samples(&bmx_waves, wave_data);
    let rows_per_beat = master.tpb;
    song.initial_speed = 1;
    assert(master.bpm as u32 * rows_per_beat as u32 <= 65535 * 255) by (nonlinear_arith)
        requires master.bpm <= 65535, rows_per_beat <= 255;
    let pt_tempo = (master.bpm as u32 * rows_per_beat as u32) / 24;
    song.initial_tempo = if pt_tempo < 1 { 1 } else if pt_tempo > 255 { 255 } else { pt_tempo as u8 };
    song.rows_per_beat = rows_per_beat;
    song.graph = graph;
    song.tracks = tracks;
    song.instruments = instruments;
    song.samples = samples;
    BmxSong { song, bpm: master.bpm, tpb: master.tpb, root_notes, machines, waves: bmx_waves }
}

/// The machine records of the file's machine section (empty when it does
/// not read).
pub open spec fn bmx_machine_records(d: Seq<u8>) -> Seq<(int, (int, u8, Option<(u16, u8)>, u16, int))> {
    match mach_section(d, section_offset(d, seq![77u8, 65, 67, 72]), para_sizes_of(d)) {
        Ok(recs) => recs,
        Err(_) => Seq::empty(),
    }
}

/// What reading the patterns of the file's machines depends on, from the
/// bytes: per machine record, the wires into it, its global and per-track
/// bytes per tick, and whether its tracks are read as cells.
pub open spec fn bmx_patt_shape(d: Seq<u8>) -> Seq<(int, int, int, bool)> {
    let recs = bmx_machine_records(d);
    let conn = section_offset(d, seq![67u8, 79, 78, 78]);
    Seq::new(recs.len(), |k: int| {
        let sizes = para_sizes(recs[k].1.1, record_dll(d, recs[k].0, recs[k].1.1), para_sizes_of(d), k);
        (
            wire_inputs(d, conn, recs.len() as int, k, le16_at(d, conn) as int) as int,
            sat_usize(sizes.0),
            sat_usize(sizes.1),
            record_is_tracker(d, recs[k].0, recs[k].1) && sizes.1 >= 5,
        )
    })
}

/// What reading wave data depends on of the file's waves, from the bytes of
/// its wave table: each wave's index, flags and levels.
pub open spec fn bmx_wave_shape(d: Seq<u8>) -> Seq<(u16, u8, Seq<BmxWaveLevel>)> {
    match wavt_records(d, section_offset(d, seq![87u8, 65, 86, 84])) {
        Ok(recs) => if section_listed(d, seq![87u8, 65, 86, 84]) {
            Seq::new(recs.len(), |i: int| (recs[i].0, recs[i].4, Seq::new(recs[i].6 as nat, |j: int| wave_level_at(d, recs[i].5, j))))
        } else {
            Seq::empty()
        },
        Err(_) => Seq::empty(),
    }
}

/// The levels read from the file's wave data section (the first of CWAV
/// and WAVE it names), each with its wave index, samples and whether they
/// are stereo; none without such a section or when it does not read.
pub open spec fn bmx_wave_entries(d: Seq<u8>) -> Seq<(u16, Seq<i16>, bool)> {
    let cwav = seq![67u8, 87, 65, 86];
    let wave = seq![87u8, 65, 86, 69];
    let off = if section_listed(d, cwav) { section_offset(d, cwav) } else { section_offset(d, wave) };
    if section_listed(d, cwav) || section_listed(d, wave) {
        match cwav_section(d, off, bmx_wave_shape(d)) {
            Ok(es) => es,
            Err(_) => Seq::empty(),
        }
    } else {
        Seq::empty()
    }
}

/// Index of the first level entry from `i` on for wave `index`.
pub open spec fn first_entry_for(es: Seq<(u16, Seq<i16>, bool)>, index: u16, i: int) -> Option<int>
    decreases es.len() - i,
{
    if i < 0 || i >= es.len() {
        None
    } else if es[i].0 == index {
        Some(i)
    } else {
        first_entry_for(es, index, i + 1)
    }
}

proof fn lemma_first_entry_matches(wave_data: Seq<(u16, SampleData)>, es: Seq<(u16, Seq<i16>, bool)>, index: u16, i: int)
    requires
        0 <= i,
        wave_data.len() == es.len(),
        forall|k: int| 0 <= k < es.len() ==> cwav_entry_ok(#[trigger] wave_data[k], es[k]),
    ensures
        first_data_for(wave_data, index, i) == first_entry_for(es, index, i),
        first_entry_for(es, index, i) matches Some(k) ==> i <= k < es.len(),
    decreases es.len() - i,
{
    if i < es.len() {
        assert(cwav_entry_ok(wave_data[i], es[i]));
        lemma_first_entry_matches(wave_data, es, index, i + 1);
    }
}

proof fn lemma_same_data_level(a: SampleData, b: SampleData, s: (u16, Seq<i16>, bool))
    requires
        same_data(a, b),
        level_data_ok(b, s),
    ensures
        level_data_ok(a, s),
{
}

proof fn lemma_samples_from_entries(
    samples: Seq<Sample>,
    waves: Seq<BmxWave>,
    wave_data: Seq<(u16, SampleData)>,
    es: Seq<(u16, Seq<i16>, bool)>,
)
    requires
        samples.len() == waves.len(),
        wave_data.len() == es.len(),
        forall|k: int| 0 <= k < es.len() ==> cwav_entry_ok(#[trigger] wave_data[k], es[k]),
        forall|i: int| 0 <= i < waves.len() ==> wave_sample_ok(#[trigger] samples[i], waves[i], wave_data),
    ensures
        forall|i: int| 0 <= i < waves.len() ==>
            match first_entry_for(es, (#[trigger] waves[i]).index, 0) {
                Some(k) => level_data_ok(samples[i].data, es[k]),
                None => samples[i].data matches SampleData::Mono16(v) && v@.len() == 0,
            },
{
    assert forall|i: int| 0 <= i < waves.len() implies
        match first_entry_for(es, (#[trigger] waves[i]).index, 0) {
            Some(k) => level_data_ok(samples[i].data, es[k]),
            None => samples[i].data matches SampleData::Mono16(v) && v@.len() == 0,
        } by {
        assert(wave_sample_ok(samples[i], waves[i], wave_data));
        lemma_first_entry_matches(wave_data, es, waves[i].index, 0);
        match first_data_for(wave_data, waves[i].index, 0) {
            Some(k) => {
                assert(cwav_entry_ok(wave_data[k], es[k]));
                lemma_same_data_level(samples[i].data, wave_data[k].1, es[k]);
            },
            None => {},
        }
    }
}

/// Read the wave data section, the first of CWAV and WAVE that the
/// directory names: its levels, or the error reading it gives; none
/// without such a section.
fn read_wave_data(r: &mut BmxReader, sections: &Vec<SectionEntry>, bmx_waves: &Vec<BmxWave>, Ghost(d): Ghost<Seq<u8>>)
    -> (res: Result<Vec<(u16, SampleData)>, FormatError>)
    requires
        old(r).bytes() == d,
        directory_spec(d) matches Ok(dir) && sections@.len() == dir.len()
            && forall|k: int| 0 <= k < dir.len() ==> ((#[trigger] sections@[k]).name@, sections@[k].offset, sections@[k].size) == dir[k],
    ensures
        final(r).bytes() == d,
        ({
            let cwav = seq![67u8, 87, 65, 86];
            let wave = seq![87u8, 65, 86, 69];
            let off = if section_listed(d, cwav) { section_offset(d, cwav) } else { section_offset(d, wave) };
            if section_listed(d, cwav) || section_listed(d, wave) {
                match cwav_section(d, off, wave_shape(bmx_waves@)) {
                    Ok(es) => res matches Ok(v) && v@.len() == es.len()
                        && forall|i: int| 0 <= i < es.len() ==> cwav_entry_ok(#[trigger] v@[i], es[i]),
                    Err(e) => res == Err::<Vec<(u16, SampleData)>, FormatError>(e),
                }
            } else {
                res matches Ok(v) && v@.len() == 0
            }
        }),
{
    proof {
        assert([67u8, 87, 65, 86]@ == seq![67u8, 87, 65, 86]);
        assert([87u8, 65, 86, 69]@ == seq![87u8, 65, 86, 69]);
        lemma_section_entry(sections@, d, seq![67u8, 87, 65, 86]);
        lemma_section_entry(sections@, d, seq![87u8, 65, 86, 69]);
    }
    let wave_entry = match find_section(sections, [67u8, 87, 65, 86]) {
        Some(e) => Some(e),
        None => find_section(sections, [87u8, 65, 86, 69]),
    };
    match wave_entry {
        Some(entry) => parse_cwav(r, &entry, bmx_waves),
        None => Ok(Vec::new()),
    }
}

/// The pattern records of the file's machines (none when they do not read).
pub open spec fn bmx_pattern_records(d: Seq<u8>) -> Seq<(int, Seq<(int, (int, u16, int, int))>)> {
    match patt_machines(d, section_offset(d, seq![80u8, 65, 84, 84]), bmx_patt_shape(d), 0) {
        Ok((machs, _)) => machs,
        Err(_) => Seq::empty(),
    }
}

/// The file's waves, by wave index, as the 1-based instrument numbers
/// pattern cells give them.
pub open spec fn bmx_wave_lookup(d: Seq<u8>) -> Seq<(u16, u8)> {
    let ws = bmx_wave_shape(d);
    Seq::new(ws.len(), |i: int| (ws[i].0, (i + 1) as u8))
}

/// The clip of pattern record `rec`, from the bytes: of the record's length
/// at six ticks per row; with the record's tracks and its cells where its
/// machine's track columns are read as cells (`tb` bytes per track and
/// tick), else empty, of `nch` channels.
pub open spec fn clip_bytes_ok(c: Clip, d: Seq<u8>, rec: (int, u16, int, int), cells: bool, tracks: int, tb: int, nch: u8, lookup: Seq<(u16, u8)>) -> bool {
    let q = c.pattern_spec();
    &&& q.wf()
    &&& q.rows == rec.1
    &&& q.ticks_per_row == 6
    &&& q.rows_per_beat is None
    &&& if cells {
        &&& q.channels == tracks
        &&& forall|tick: int, track: int| 0 <= tick < rec.1 && 0 <= track < tracks ==>
            #[trigger] q.cell_at(tick, track) == tracker_cell_at(d, tracker_cell_offset(rec.2, rec.1 as int, tb, tick, track), lookup)
    } else {
        &&& q.channels == nch
        &&& forall|i: int| 0 <= i < q.data@.len() ==> q.data@[i] == crate::pattern::empty_cell()
    }
}

/// The clips of the track of sequence record `rec`: one per pattern record
/// of its machine, in order, each from its bytes.
pub open spec fn track_clips_ok(t: Track, rec: (int, u32, u8, u8, int), ms: Seq<BmxMachine>, d: Seq<u8>) -> bool {
    let mi = rec.0;
    let machs = bmx_pattern_records(d);
    let sh = bmx_patt_shape(d);
    let prs: Seq<(int, (int, u16, int, int))> = if 0 <= mi < machs.len() { machs[mi].1 } else { Seq::empty() };
    &&& t.clips@.len() == prs.len()
    &&& forall|j: int| 0 <= j < prs.len() ==> clip_bytes_ok(#[trigger] t.clips@[j], d, prs[j].1, sh[mi].3,
        le16_at(d, machs[mi].0 + 2) as int, sh[mi].2, seq_channels(ms, mi), bmx_wave_lookup(d))
}

proof fn lemma_track_clips(
    t: Track,
    rec: (int, u32, u8, u8, int),
    ms: Seq<BmxMachine>,
    pds: Seq<BmxParaDef>,
    all: Seq<Vec<BmxPattern>>,
    d: Seq<u8>,
    rpb: u8,
)
    requires
        seq_track_ok(t, rec, ms, all, d, rpb),
        patt_all_ok(all, bmx_pattern_records(d), d, ms, pds, bmx_wave_lookup(d)),
        patt_shape(ms, pds) == bmx_patt_shape(d),
        all.len() == ms.len(),
    ensures
        track_clips_ok(t, rec, ms, d),
{
    let mi = rec.0;
    let machs = bmx_pattern_records(d);
    let sh = bmx_patt_shape(d);
    if 0 <= mi < all.len() {
        assert(sh[mi] == patt_shape(ms, pds)[mi]);
        assert forall|j: int| 0 <= j < machs[mi].1.len() implies clip_bytes_ok(#[trigger] t.clips@[j], d, machs[mi].1[j].1, sh[mi].3,
            le16_at(d, machs[mi].0 + 2) as int, sh[mi].2, seq_channels(ms, mi), bmx_wave_lookup(d)) by {
            let bp = all[mi]@[j];
            let rec_j = machs[mi].1[j].1;
            let tracks = le16_at(d, machs[mi].0 + 2) as int;
            assert(patt_pattern_ok(bp, d, machs[mi].1[j].0, rec_j, patt_cells(ms, pds, mi),
                tracks, track_bytes_sat(pds, mi), bmx_wave_lookup(d)));
            assert(clip_from(bp, seq_channels(ms, mi), t.clips@[j]));
            let q = t.clips@[j].pattern_spec();
            match bp.pattern {
                Some(p) => {
                    assert(q.data@ == p.data@);
                    assert forall|tick: int, track: int| 0 <= tick < rec_j.1 && 0 <= track < tracks implies
                        #[trigger] q.cell_at(tick, track) == tracker_cell_at(d, tracker_cell_offset(rec_j.2, rec_j.1 as int, sh[mi].2, tick, track), bmx_wave_lookup(d)) by {
                        assert(p.cell_at(tick, track) == tracker_cell_at(d, tracker_cell_offset(rec_j.2, rec_j.1 as int, track_bytes_sat(pds, mi), tick, track), bmx_wave_lookup(d)));
                    }
                },
                None => {},
            }
        }
    }
}

proof fn lemma_tracks_from_bytes(
    tracks: Seq<Track>,
    recs: Seq<(int, u32, u8, u8, int)>,
    ms: Seq<BmxMachine>,
    pds: Seq<BmxParaDef>,
    all: Seq<Vec<BmxPattern>>,
    d: Seq<u8>,
    rpb: u8,
)
    requires
        seq_tracks_ok(tracks, recs, ms, all, d, rpb),
        patt_all_ok(all, bmx_pattern_records(d), d, ms, pds, bmx_wave_lookup(d)),
        patt_shape(ms, pds) == bmx_patt_shape(d),
        all.len() == ms.len(),
    ensures
        seq_track_heads_ok(tracks, recs, ms, d, rpb),
        forall|k: int| 0 <= k < recs.len() && seq_kept(ms, recs[k].0) ==>
            track_clips_ok(tracks[kept_before(recs, ms, k) as int], #[trigger] recs[k], ms, d),
{
    assert forall|k: int| 0 <= k < recs.len() && seq_kept(ms, recs[k].0) implies
        seq_track_head_ok(tracks[kept_before(recs, ms, k) as int], #[trigger] recs[k], ms, d, rpb)
        && track_clips_ok(tracks[kept_before(recs, ms, k) as int], recs[k], ms, d) by {
        assert(seq_track_ok(tracks[kept_before(recs, ms, k) as int], recs[k], ms, all, d, rpb));
        lemma_track_clips(tracks[kept_before(recs, ms, k) as int], recs[k], ms, pds, all, d, rpb);
    }
}

/// How loading the file ends, in the order its parts are read: the
/// directory; the version; the parameter section, if any; the machine
/// section, which must be there; the connections, which must be there and
/// fit; the wave table, if any; the patterns and the sequences, which must
/// be there; the wave data, if any. The first part that fails gives the
/// error, a missing required section `InvalidHeader`.
pub open spec fn bmx_outcome(d: Seq<u8>) -> Result<(), FormatError> {
    let bver = seq![66u8, 86, 69, 82];
    let para = seq![80u8, 65, 82, 65];
    let mach = seq![77u8, 65, 67, 72];
    let conn = seq![67u8, 79, 78, 78];
    let wavt = seq![87u8, 65, 86, 84];
    let patt = seq![80u8, 65, 84, 84];
    let sequ = seq![83u8, 69, 81, 85];
    let cwav = seq![67u8, 87, 65, 86];
    let wave = seq![87u8, 65, 86, 69];
    let recs = bmx_machine_records(d);
    let tpb = mach_master(recs, recs.len() as int).1;
    match directory_spec(d) {
        Err(e) => Err(e),
        Ok(_) => if section_listed(d, bver) && section_offset(d, bver) > d.len() {
            Err(FormatError::UnexpectedEof)
        } else if section_listed(d, para) && para_section(d, section_offset(d, para)) is Err {
            Err(para_section(d, section_offset(d, para))->Err_0)
        } else if !section_present(d, mach) {
            Err(FormatError::InvalidHeader)
        } else if mach_section(d, section_offset(d, mach), para_sizes_of(d)) is Err {
            Err(mach_section(d, section_offset(d, mach), para_sizes_of(d))->Err_0)
        } else if !section_present(d, conn) {
            Err(FormatError::InvalidHeader)
        } else if !conn_section_fits(d, section_offset(d, conn)) {
            Err(FormatError::UnexpectedEof)
        } else if section_listed(d, wavt) && wavt_records(d, section_offset(d, wavt)) is Err {
            Err(wavt_records(d, section_offset(d, wavt))->Err_0)
        } else if !section_present(d, patt) {
            Err(FormatError::InvalidHeader)
        } else if patt_machines(d, section_offset(d, patt), bmx_patt_shape(d), 0) is Err {
            Err(patt_machines(d, section_offset(d, patt), bmx_patt_shape(d), 0)->Err_0)
        } else if !section_present(d, sequ) {
            Err(FormatError::InvalidHeader)
        } else if sequ_records(d, section_offset(d, sequ), tpb) is Err {
            Err(sequ_records(d, section_offset(d, sequ), tpb)->Err_0)
        } else if section_listed(d, cwav) && cwav_section(d, section_offset(d, cwav), bmx_wave_shape(d)) is Err {
            Err(cwav_section(d, section_offset(d, cwav), bmx_wave_shape(d))->Err_0)
        } else if !section_listed(d, cwav) && section_listed(d, wave)
            && cwav_section(d, section_offset(d, wave), bmx_wave_shape(d)) is Err {
            Err(cwav_section(d, section_offset(d, wave), bmx_wave_shape(d))->Err_0)
        } else {
            Ok(())
        },
    }
}

/// Load a BMX (Buzz) song. Each machine becomes a graph node (tracker
/// machines a "Tracker" node) and each wire a connection; each sequence a
/// track; each wave a sample and an instrument; the master's tempo sets the
/// song's. The samples' C-4 speeds are their waves' sample rates, before
/// the root-note adjustment.
#[verifier::spinoff_prover]
#[verifier::rlimit(80)]
pub fn load_bmx(data: &[u8]) -> (res: Result<BmxSong, FormatError>)
    ensures
        directory_spec(data@) matches Err(e) ==> res == Err::<BmxSong, FormatError>(e),
        match bmx_outcome(data@) {
            Ok(_) => res is Ok,
            Err(e) => res == Err::<BmxSong, FormatError>(e),
        },
        res is Ok ==> {
            &&& section_present(data@, seq![77u8, 65, 67, 72])
            &&& section_present(data@, seq![67u8, 79, 78, 78])
            &&& section_present(data@, seq![80u8, 65, 84, 84])
            &&& section_present(data@, seq![83u8, 69, 81, 85])
        },
        res matches Ok(b) ==> {
            &&& name32_bytes(b.song.title) == fitted("BMX Song".spec_bytes(), 32)
            &&& b.song.initial_speed == 1
            &&& b.song.rows_per_beat == b.tpb
            &&& b.song.initial_tempo == bmx_tempo_spec(b.bpm, b.tpb)
            &&& b.song.global_volume == 64
            &&& forall|i: int| 0 <= i < b.song.channels@.len() ==> #[trigger] b.song.channels@[i] == (ChannelSettings {
                initial_pan: amiga_pan(i),
                initial_vol: 64,
                muted: false,
            })
            &&& b.song.instruments@.len() == b.song.samples@.len()
            &&& b.root_notes@.len() == b.song.samples@.len()
            &&& forall|i: int, n: int| 0 <= i < b.song.instruments@.len() && 0 <= n < 120 ==>
                #[trigger] b.song.instruments@[i].sample_map@[n] == i as u8
            &&& forall|i: int| 0 <= i < b.song.tracks@.len() ==> sequence_track_ok(#[trigger] b.song.tracks@[i])
        },
        res matches Ok(b) ==> {
            let conn_off = section_offset(data@, seq![67u8, 79, 78, 78]);
            let wires = le16_at(data@, conn_off) as int;
            &&& b.song.graph.nodes@[0].id == 0
            &&& b.song.graph.nodes@[0].node_type == NodeType::Master
            &&& b.song.graph.nodes@[0].parameters@.len() == 0
            &&& machine_nodes_ok(b.song.graph, b.machines@)
            &&& conn_section_fits(data@, conn_off)
            &&& b.song.graph.connections@ == wire_conns(data@, conn_off, b.machines@, wires)
            &&& forall|k: int| 0 <= k < b.machines@.len() ==>
                (#[trigger] b.machines@[k]).num_inputs == wire_inputs(data@, conn_off, b.machines@.len() as int, k, wires)
            &&& b.song.channels@.len() == channels_before(b.machines@, b.machines@.len() as int)
        },
        res matches Ok(b) ==> sequ_records(data@, section_offset(data@, seq![83u8, 69, 81, 85]), b.tpb) matches Ok(recs)
            && seq_track_heads_ok(b.song.tracks@, recs, b.machines@, data@, b.tpb)
            && forall|k: int| 0 <= k < recs.len() && seq_kept(b.machines@, recs[k].0) ==>
                track_clips_ok(b.song.tracks@[kept_before(recs, b.machines@, k) as int], #[trigger] recs[k], b.machines@, data@),
        res matches Ok(b) ==> (mach_section(data@, section_offset(data@, seq![77u8, 65, 67, 72]), para_sizes_of(data@)) matches Ok(recs)
            && b.machines@.len() == recs.len()
            && (forall|k: int| 0 <= k < recs.len() ==> machine_record_ok(#[trigger] b.machines@[k], data@, recs[k].0, recs[k].1))
            && (b.bpm, b.tpb) == mach_master(recs, recs.len() as int)),
        res matches Ok(b) ==> {
            &&& section_listed(data@, seq![87u8, 65, 86, 84]) ==> (wavt_records(data@, section_offset(data@, seq![87u8, 65, 86, 84])) matches Ok(recs)
                && b.waves@.len() == recs.len()
                && forall|i: int| 0 <= i < recs.len() ==> wave_ok(#[trigger] b.waves@[i], data@, recs[i]))
            &&& !section_listed(data@, seq![87u8, 65, 86, 84]) ==> b.waves@.len() == 0
            &&& b.song.samples@.len() == b.waves@.len()
            &&& forall|i: int| 0 <= i < b.waves@.len() ==> wave_sample_meta_ok(#[trigger] b.song.samples@[i], b.waves@[i])
            &&& forall|i: int| 0 <= i < b.waves@.len() ==> #[trigger] b.root_notes@[i]
                == (if b.waves@[i].levels@.len() > 0 { Some(b.waves@[i].levels@[0].root_note) } else { None })
        },
        res matches Ok(b) ==> forall|i: int| 0 <= i < b.waves@.len() ==> {
            &&& name26_bytes(b.song.samples@[i].name) == fitted(vstd::utf8::encode_utf8((#[trigger] b.waves@[i]).name@), 26)
            &&& name26_bytes(b.song.instruments@[i].name) == fitted(vstd::utf8::encode_utf8(b.waves@[i].name@), 26)
        },
        res matches Ok(b) ==> forall|i: int| 0 <= i < b.waves@.len() ==>
            match first_entry_for(bmx_wave_entries(data@), (#[trigger] b.waves@[i]).index, 0) {
                Some(k) => level_data_ok(b.song.samples@[i].data, bmx_wave_entries(data@)[k]),
                None => b.song.samples@[i].data matches SampleData::Mono16(v) && v@.len() == 0,
            },
{
    let mut r = BmxReader::new(data);
    let sections = match parse_header(&mut r) {
        Ok(s) => s,
        Err(e) => return Err(e),
    };
    let ghost d = data@;
    proof {
        assert([66u8, 86, 69, 82]@ == seq![66u8, 86, 69, 82]);
        assert([80u8, 65, 82, 65]@ == seq![80u8, 65, 82, 65]);
        assert([77u8, 65, 67, 72]@ == seq![77u8, 65, 67, 72]);
        assert([67u8, 79, 78, 78]@ == seq![67u8, 79, 78, 78]);
        assert([80u8, 65, 84, 84]@ == seq![80u8, 65, 84, 84]);
        assert([83u8, 69, 81, 85]@ == seq![83u8, 69, 81, 85]);
        assert([67u8, 87, 65, 86]@ == seq![67u8, 87, 65, 86]);
        assert([87u8, 65, 86, 69]@ == seq![87u8, 65, 86, 69]);
        lemma_section_entry(sections@, d, seq![66u8, 86, 69, 82]);
        lemma_section_entry(sections@, d, seq![80u8, 65, 82, 65]);
        lemma_section_entry(sections@, d, seq![67u8, 87, 65, 86]);
        lemma_section_entry(sections@, d, seq![87u8, 65, 86, 69]);
    }
    match find_section(&sections, [66u8, 86, 69, 82]) {
        Some(entry) => match parse_bver(&mut r, &entry) {
            Ok(_) => {},
            Err(e) => return Err(e),
        },
        None => {},
    }
    proof {
        lemma_find_matches_dir(sections@, directory_spec(d)->Ok_0, seq![80u8, 65, 82, 65], 0);
        assert([80u8, 65, 82, 65]@ == seq![80u8, 65, 82, 65]);
    }
    let para_from_section = match find_section(&sections, [80u8, 65, 82, 65]) {
        Some(entry) => {
            proof {
                let dir = directory_spec(d)->Ok_0;
                let k = dir_find(dir, seq![80u8, 65, 82, 65], 0)->Some_0;
                lemma_found_section(sections@, seq![80u8, 65, 82, 65], 0);
                assert((sections@[k].name@, sections@[k].offset, sections@[k].size) == dir[k]);
                assert(entry.offset as int == section_offset(d, seq![80u8, 65, 82, 65]));
            }
            match parse_para(&mut r, &entry) {
                Ok(p) => Some(p),
                Err(e) => return Err(e),
            }
        },
        None => None,
    };
    proof {
        assert(para_view(para_from_section) == para_sizes_of(d));
    }
    let mach_entry = match required_section(&sections, [77u8, 65, 67, 72], Ghost(d)) {
        Ok(e) => e,
        Err(e) => return Err(e),
    };
    let mut graph = AudioGraph::with_master();
    let ms = match parse_mach(&mut r, &mach_entry, &para_from_section, &mut graph) {
        Ok(m) => m,
        Err(e) => return Err(e),
    };
    let ghost mrecs = bmx_machine_records(d);
    let MachineSection { machines, para_defs, master, num_channels } = ms;
    let mut machines = machines;
    let conn_entry = match required_section(&sections, [67u8, 79, 78, 78], Ghost(d)) {
        Ok(e) => e,
        Err(e) => return Err(e),
    };
    let ghost ms_read = machines@;
    match read_wires(&mut r, &conn_entry, &mut machines, &mut graph, Ghost(d)) {
        Ok(()) => {},
        Err(e) => return Err(e),
    }
    proof {
        lemma_counts_same_but_inputs(ms_read, machines@, ms_read.len() as int);
        {
            let recs = mach_section(d, mach_entry.offset as int, para_sizes_of(d))->Ok_0;
            assert forall|k: int| 0 <= k < recs.len() implies machine_record_ok(#[trigger] machines@[k], d, recs[k].0, recs[k].1) by {
                assert(machine_record_ok(ms_read[k], d, recs[k].0, recs[k].1));
                assert(machines@[k] == (BmxMachine { num_inputs: machines@[k].num_inputs, ..ms_read[k] }));
            }
        }
    }
    let bmx_waves = match read_wave_table(&mut r, &sections, Ghost(d)) {
        Ok(w) => w,
        Err(e) => return Err(e),
    };
    proof {
        if section_listed(d, seq![87u8, 65, 86, 84]) {
            let recs = wavt_records(d, section_offset(d, seq![87u8, 65, 86, 84]))->Ok_0;
            assert forall|i: int| 0 <= i < bmx_waves@.len() implies #[trigger] wave_shape(bmx_waves@)[i] == bmx_wave_shape(d)[i] by {
                assert(wave_ok(bmx_waves@[i], d, recs[i]));
                assert(bmx_waves@[i].levels@ =~= Seq::new(recs[i].6 as nat, |j: int| wave_level_at(d, recs[i].5, j)));
            }
        }
        assert(wave_shape(bmx_waves@) =~= bmx_wave_shape(d));
    }
    let mut wave_indices: Vec<u16> = Vec::new();
    let mut i: usize = 0;
    while i < bmx_waves.len()
        invariant
            i <= bmx_waves@.len(),
            wave_indices@ =~= Seq::new(i as nat, |k: int| bmx_waves@[k].index),
        decreases bmx_waves@.len() - i,
    {
        wave_indices.push(bmx_waves[i].index);
        i = i + 1;
    }
    let wave_lookup = build_wave_lookup(wave_indices.as_slice());
    proof {
        assert(wave_lookup@ =~= bmx_wave_lookup(d));
    }
    let patt_entry = match required_section(&sections, [80u8, 65, 84, 84], Ghost(d)) {
        Ok(e) => e,
        Err(e) => return Err(e),
    };
    proof {
        let conn_off = section_offset(d, seq![67u8, 79, 78, 78]);
        assert forall|k: int| 0 <= k < machines@.len() implies #[trigger] patt_shape(machines@, para_defs@)[k] == bmx_patt_shape(d)[k] by {
            assert(machine_sizes_ok(ms_read[k], para_defs@[k], d, mrecs[k], para_sizes_of(d), k));
            assert(machines@[k] == (BmxMachine { num_inputs: machines@[k].num_inputs, ..ms_read[k] }));
        }
        assert(patt_shape(machines@, para_defs@) =~= bmx_patt_shape(d));
    }
    let all_patterns = match parse_patt(&mut r, &patt_entry, &machines, &para_defs, wave_lookup.as_slice()) {
        Ok(p) => p,
        Err(e) => return Err(e),
    };
    let rows_per_beat = master.tpb;
    let sequ_entry = match required_section(&sections, [83u8, 69, 81, 85], Ghost(d)) {
        Ok(e) => e,
        Err(e) => return Err(e),
    };
    let tracks = match parse_sequ(&mut r, &sequ_entry, &machines, &all_patterns, rows_per_beat) {
        Ok(t) => t,
        Err(e) => return Err(e),
    };
    proof {
        let recs = sequ_records(d, sequ_entry.offset as int, rows_per_beat)->Ok_0;
        lemma_tracks_from_bytes(tracks@, recs, machines@, para_defs@, all_patterns@, d, rows_per_beat);
    }
    let wave_data = match read_wave_data(&mut r, &sections, &bmx_waves, Ghost(d)) {
        Ok(w) => w,
        Err(e) => return Err(e),
    };
    let b = assemble_bmx(graph, tracks, machines, bmx_waves, &wave_data, master, num_channels);
    proof {
        lemma_samples_from_entries(b.song.samples@, b.waves@, wave_data@, bmx_wave_entries(d));
    }
    Ok(b)
}
} // verus!
