//! ProTracker MOD format parser.
use vstd::prelude::*;
use crate::effect_parser::{effect_spec, hi_nibble, lo_nibble, parse_effect};
use crate::effects::VolumeCommand;
use crate::format_error::FormatError;
use crate::names::{lossy_text, text_from_utf8_lossy, trim_text, trimmed_text};
use vstd::utf8::encode_utf8;
use crate::names::{fitted, name26_bytes};
use crate::pattern::{Cell, Note, Pattern};
use crate::sample::{LoopType, Sample, SampleData};
use crate::instrument::Instrument;
use crate::musical_time::MusicalTime;
use crate::names::{decimal_chars, name32_bytes, sample_label_text};
use crate::scheduler::{byte_as_i8, signed_byte};
use crate::song::{
    amiga_pan, build_tracks, first_named_from, lemma_sequence_same_shapes, same_pattern, same_shapes,
    sequence_from_order, tracker_graph, ChannelSettings, OrderEntry, Song, Track,
};
use vstd::string::StringSliceAdditionalSpecFns;

verus! {

/// Amiga period of table entry `i` (octaves 1 to 3, C first).
pub open spec fn amiga_period_spec(i: int) -> int {
    if i == 0 { 856 } else if i == 1 { 808 } else if i == 2 { 762 } else if i == 3 { 720 }
    else if i == 4 { 678 } else if i == 5 { 640 } else if i == 6 { 604 } else if i == 7 { 570 }
    else if i == 8 { 538 } else if i == 9 { 508 } else if i == 10 { 480 } else if i == 11 { 453 }
    else if i == 12 { 428 } else if i == 13 { 404 } else if i == 14 { 381 } else if i == 15 { 360 }
    else if i == 16 { 339 } else if i == 17 { 320 } else if i == 18 { 302 } else if i == 19 { 285 }
    else if i == 20 { 269 } else if i == 21 { 254 } else if i == 22 { 240 } else if i == 23 { 226 }
    else if i == 24 { 214 } else if i == 25 { 202 } else if i == 26 { 190 } else if i == 27 { 180 }
    else if i == 28 { 170 } else if i == 29 { 160 } else if i == 30 { 151 } else if i == 31 { 143 }
    else if i == 32 { 135 } else if i == 33 { 127 } else if i == 34 { 120 } else { 113 }
}

pub(crate) fn amiga_period(i: usize) -> (r: u16)
    requires
        i < 36,
    ensures
        r == amiga_period_spec(i as int),
{
    if i == 0 { 856 } else if i == 1 { 808 } else if i == 2 { 762 } else if i == 3 { 720 }
    else if i == 4 { 678 } else if i == 5 { 640 } else if i == 6 { 604 } else if i == 7 { 570 }
    else if i == 8 { 538 } else if i == 9 { 508 } else if i == 10 { 480 } else if i == 11 { 453 }
    else if i == 12 { 428 } else if i == 13 { 404 } else if i == 14 { 381 } else if i == 15 { 360 }
    else if i == 16 { 339 } else if i == 17 { 320 } else if i == 18 { 302 } else if i == 19 { 285 }
    else if i == 20 { 269 } else if i == 21 { 254 } else if i == 22 { 240 } else if i == 23 { 226 }
    else if i == 24 { 214 } else if i == 25 { 202 } else if i == 26 { 190 } else if i == 27 { 180 }
    else if i == 28 { 170 } else if i == 29 { 160 } else if i == 30 { 151 } else if i == 31 { 143 }
    else if i == 32 { 135 } else if i == 33 { 127 } else if i == 34 { 120 } else { 113 }
}

/// Distance from `period` to table entry `i`.
pub open spec fn period_distance(period: u16, i: int) -> int {
    let d = period - amiga_period_spec(i);
    if d < 0 { -d } else { d }
}

/// The closest entry among the first `n` (the earliest on ties) and its
/// distance; `(0, u16::MAX)` for none.
pub open spec fn closest_period(period: u16, n: int) -> (int, int)
    decreases n,
{
    if n <= 0 {
        (0, u16::MAX as int)
    } else {
        let best = closest_period(period, n - 1);
        if period_distance(period, n - 1) < best.1 { (n - 1, period_distance(period, n - 1)) } else { best }
    }
}

/// The note of an Amiga period: the closest table entry, C-1 being note 36;
/// no note for period zero.
pub open spec fn period_note_spec(period: u16) -> Note {
    if period == 0 { Note::Empty } else { Note::On((closest_period(period, 36).0 + 36) as u8) }
}

proof fn lemma_closest_in_range(period: u16, n: int)
    requires
        0 <= n <= 36,
    ensures
        0 <= closest_period(period, n).0 < 36,
        closest_period(period, n).1 <= u16::MAX,
    decreases n,
{
    if n > 0 {
        lemma_closest_in_range(period, n - 1);
    }
}

/// Convert Amiga period to MIDI note number.
pub fn period_to_note(period: u16) -> (r: Note)
    ensures
        r == period_note_spec(period),
{
    if period == 0 {
        return Note::Empty;
    }
    let mut best_note: usize = 0;
    let mut best_diff: u16 = u16::MAX;
    let mut i: usize = 0;
    while i < 36
        invariant
            i <= 36,
            (best_note as int, best_diff as int) == closest_period(period, i as int),
        decreases 36 - i,
    {
        let p = amiga_period(i);
        let diff: u16 = if period >= p { period - p } else { p - period };
        if diff < best_diff {
            best_diff = diff;
            best_note = i;
        }
        i = i + 1;
    }
    proof {
        lemma_closest_in_range(period, 36);
    }
    Note::On((best_note + 36) as u8)
}

/// The cell encoded by four MOD pattern bytes: sample number split across
/// the high nibbles of bytes 0 and 2, a 12-bit period, effect command and
/// parameter.
pub open spec fn mod_cell_spec(b0: u8, b1: u8, b2: u8, b3: u8) -> Cell {
    Cell {
        note: period_note_spec((lo_nibble(b0) * 256 + b1) as u16),
        instrument: (hi_nibble(b0) * 16 + hi_nibble(b2)) as u8,
        volume: VolumeCommand::Empty,
        effect: effect_spec(lo_nibble(b2), b3),
    }
}

/// Parse a single pattern cell (4 bytes).
fn parse_cell(data: &[u8]) -> (r: Cell)
    requires
        data@.len() >= 4,
    ensures
        r == mod_cell_spec(data@[0], data@[1], data@[2], data@[3]),
{
    let b0 = data[0];
    let b1 = data[1];
    let b2 = data[2];
    let sample_hi = b0 & 0xF0;
    let period_hi = ((b0 & 0x0F) as u16) << 8;
    let period_lo = b1 as u16;
    let period = period_hi | period_lo;
    let sample_lo = (b2 & 0xF0) >> 4;
    let sample = sample_hi | sample_lo;
    let effect_cmd = b2 & 0x0F;
    let effect_param = data[3];
    proof {
        assert(period == (b0 % 16) * 256 + b1) by (bit_vector)
            requires
                period == ((((b0 & 0x0Fu8) as u16) << 8u16) | (b1 as u16)),
        ;
        assert(sample == (b0 / 16) * 16 + b2 / 16) by (bit_vector)
            requires
                sample == ((b0 & 0xF0u8) | ((b2 & 0xF0u8) >> 4u8)),
        ;
        assert(effect_cmd == b2 % 16) by (bit_vector)
            requires effect_cmd == b2 & 0x0Fu8;
    }
    Cell {
        note: period_to_note(period),
        instrument: sample,
        volume: VolumeCommand::Empty,
        effect: parse_effect(effect_cmd, effect_param),
    }
}

/// Index of the first zero byte of `s` from `i` on, or its length.
pub open spec fn first_nul_from(s: Seq<u8>, i: int) -> int
    decreases s.len() - i,
{
    if i < 0 || i >= s.len() {
        s.len() as int
    } else if s[i] == 0 {
        i
    } else {
        first_nul_from(s, i + 1)
    }
}

/// The text of a zero-terminated field: the bytes before the first zero,
/// decoded leniently and trimmed.
pub open spec fn field_text(s: Seq<u8>) -> Seq<char> {
    trimmed_text(lossy_text(s.take(first_nul_from(s, 0))))
}

proof fn lemma_first_nul_bounds(s: Seq<u8>, i: int)
    requires
        0 <= i <= s.len(),
    ensures
        i <= first_nul_from(s, i) <= s.len(),
    decreases s.len() - i,
{
    if i < s.len() && s[i] != 0 {
        lemma_first_nul_bounds(s, i + 1);
    }
}

/// Parse a null-terminated string from bytes.
pub fn parse_string(data: &[u8]) -> (r: String)
    ensures
        r@ == field_text(data@),
{
    let mut end: usize = 0;
    while end < data.len() && data[end] != 0
        invariant
            end <= data@.len(),
            first_nul_from(data@, 0) == first_nul_from(data@, end as int),
        decreases data@.len() - end,
    {
        end = end + 1;
    }
    proof {
        lemma_first_nul_bounds(data@, 0);
    }
    let head = slice_prefix(data, end);
    let text = text_from_utf8_lossy(head);
    trim_text(text.as_str()).to_owned()
}

/// The first `n` items of a slice.
pub(crate) fn slice_prefix<T>(data: &[T], n: usize) -> (r: &[T])
    requires
        n <= data@.len(),
    ensures
        r@ == data@.take(n as int),
{
    let (head, _) = data.split_at(n);
    head
}

/// A big-endian 16-bit word.
pub open spec fn be16(hi: u8, lo: u8) -> int {
    hi * 256 + lo
}

/// The signed finetune (-8..7) in the low nibble of a byte.
pub open spec fn finetune_spec(b: u8) -> int {
    if lo_nibble(b) > 7 { lo_nibble(b) - 16 } else { lo_nibble(b) as int }
}

/// The Amiga C-4 rate of 8363 Hz scaled by 2^(finetune/96), rounded down.
pub open spec fn finetuned_rate(finetune: int) -> u32 {
    if finetune == -8 { 7893 } else if finetune == -7 { 7950 } else if finetune == -6 { 8008 }
    else if finetune == -5 { 8066 } else if finetune == -4 { 8124 } else if finetune == -3 { 8183 }
    else if finetune == -2 { 8243 } else if finetune == -1 { 8302 } else if finetune == 1 { 8423 }
    else if finetune == 2 { 8484 } else if finetune == 3 { 8546 } else if finetune == 4 { 8608 }
    else if finetune == 5 { 8670 } else if finetune == 6 { 8733 } else if finetune == 7 { 8796 }
    else { 8363 }
}

fn finetuned_c4_speed(finetune: i8) -> (r: u32)
    ensures
        r == finetuned_rate(finetune as int),
{
    if finetune == -8 { 7893 } else if finetune == -7 { 7950 } else if finetune == -6 { 8008 }
    else if finetune == -5 { 8066 } else if finetune == -4 { 8124 } else if finetune == -3 { 8183 }
    else if finetune == -2 { 8243 } else if finetune == -1 { 8302 } else if finetune == 1 { 8423 }
    else if finetune == 2 { 8484 } else if finetune == 3 { 8546 } else if finetune == 4 { 8608 }
    else if finetune == 5 { 8670 } else if finetune == 6 { 8733 } else if finetune == 7 { 8796 }
    else { 8363 }
}

/// Length in frames of the sample described by a 30-byte header.
pub open spec fn header_length(h: Seq<u8>) -> int {
    be16(h[22], h[23]) * 2
}

/// Loop start in frames from a 30-byte header.
pub open spec fn header_loop_start(h: Seq<u8>) -> int {
    be16(h[26], h[27]) * 2
}

/// Loop length in frames from a 30-byte header.
pub open spec fn header_loop_length(h: Seq<u8>) -> int {
    be16(h[28], h[29]) * 2
}

/// The settings of a sample other than its data and loop end match the
/// 30-byte header `h`: name from the first 22 bytes, volume capped at 64,
/// the finetuned C-4 rate, and a forward loop when the loop is longer than
/// two frames.
pub open spec fn header_settings(s: Sample, h: Seq<u8>) -> bool {
    &&& name26_bytes(s.name) == fitted(encode_utf8(field_text(h.take(22))), 26)
    &&& s.default_volume == (if h[25] < 64 { h[25] } else { 64 })
    &&& s.c4_speed == finetuned_rate(finetune_spec(h[24]))
    &&& s.default_pan == 0
    &&& s.vibrato.is_none()
    &&& s.loop_start == (if header_loop_length(h) > 2 { header_loop_start(h) } else { 0 })
    &&& s.loop_type == (if header_loop_length(h) > 2 { LoopType::Forward } else { LoopType::NoLoop })
}

/// A sample parsed from the 30-byte header `h`, before its data is loaded:
/// the header's settings, a loop end of start plus length (zero without a
/// loop), and silent 8-bit data of the header's length.
pub open spec fn header_sample(s: Sample, h: Seq<u8>) -> bool {
    &&& header_settings(s, h)
    &&& s.loop_end == (if header_loop_length(h) > 2 { header_loop_start(h) + header_loop_length(h) } else { 0 })
    &&& s.data matches SampleData::Mono8(v) && v@.len() == header_length(h) && forall|i: int| 0 <= i < v@.len() ==> v@[i] == 0
}

fn zeros_i8(n: usize) -> (r: Vec<i8>)
    ensures
        r@.len() == n,
        forall|i: int| 0 <= i < n ==> r@[i] == 0,
{
    let mut v: Vec<i8> = Vec::new();
    while v.len() < n
        invariant
            v@.len() <= n,
            forall|i: int| 0 <= i < v@.len() ==> v@[i] == 0,
        decreases n - v@.len(),
    {
        v.push(0);
    }
    v
}

/// Parse a sample header (30 bytes).
pub fn parse_sample_header(data: &[u8]) -> (r: Result<Sample, FormatError>)
    ensures
        data@.len() < 30 <==> r is Err,
        r is Err ==> r == Err::<Sample, FormatError>(FormatError::UnexpectedEof),
        r matches Ok(s) ==> header_sample(s, data@),
{
    if data.len() < 30 {
        return Err(FormatError::UnexpectedEof);
    }
    let name = parse_string(slice_prefix(data, 22));
    let length = (data[22] as u32 * 256 + data[23] as u32) * 2;
    let ft_byte = data[24];
    let low = ft_byte & 0x0F;
    assert(low == ft_byte % 16) by (bit_vector) requires low == ft_byte & 0x0Fu8;
    let finetune: i8 = if low > 7 { low as i8 - 16 } else { low as i8 };
    let volume = if data[25] < 64 { data[25] } else { 64 };
    let loop_start = (data[26] as u32 * 256 + data[27] as u32) * 2;
    let loop_length = (data[28] as u32 * 256 + data[29] as u32) * 2;

    let mut sample = Sample::new(name.as_str());
    proof {
        assert(data@.take(22) == data@.subrange(0, 22));
    }
    sample.default_volume = volume;
    sample.c4_speed = finetuned_c4_speed(finetune);
    if loop_length > 2 {
        sample.loop_start = loop_start;
        sample.loop_end = loop_start + loop_length;
        sample.loop_type = LoopType::Forward;
    }
    sample.data = SampleData::Mono8(zeros_i8(length as usize));
    Ok(sample)
}

/// A parsed MOD pattern: 64 rows of `channels` cells, the cell at row `r`
/// and channel `c` decoded from the 4 bytes at `(r * channels + c) * 4`.
pub open spec fn mod_pattern(p: Pattern, data: Seq<u8>, channels: u8) -> bool {
    &&& p.wf()
    &&& p.rows == 64
    &&& p.channels == channels
    &&& p.ticks_per_row == 6
    &&& p.rows_per_beat.is_none()
    &&& forall|r: int, c: int| 0 <= r < 64 && 0 <= c < channels ==> {
        let o = (r * channels + c) * 4;
        #[trigger] p.cell_at(r, c) == mod_cell_spec(data[o], data[o + 1], data[o + 2], data[o + 3])
    }
}

/// Parse a pattern.
pub fn parse_pattern(data: &[u8], num_channels: u8) -> (r: Result<Pattern, FormatError>)
    ensures
        (num_channels > 0 && data@.len() < 256 * num_channels) <==> r is Err,
        r is Err ==> r == Err::<Pattern, FormatError>(FormatError::UnexpectedEof),
        r matches Ok(p) ==> mod_pattern(p, data@, num_channels),
{
    let mut pattern = Pattern::new(64, num_channels);
    let mut row: u16 = 0;
    while row < 64
        invariant
            row <= 64,
            num_channels > 0 ==> data@.len() >= row * num_channels * 4,
            pattern.wf(),
            pattern.rows == 64,
            pattern.channels == num_channels,
            pattern.ticks_per_row == 6,
            pattern.rows_per_beat.is_none(),
            forall|r: int, c: int| 0 <= r < row && 0 <= c < num_channels ==> {
                let o = (r * num_channels + c) * 4;
                #[trigger] pattern.cell_at(r, c) == mod_cell_spec(data@[o], data@[o + 1], data@[o + 2], data@[o + 3])
            },
        decreases 64 - row,
    {
        let mut ch: u8 = 0;
        while ch < num_channels
            invariant
                row < 64,
                ch <= num_channels,
                data@.len() >= (row * num_channels + ch) * 4,
                pattern.wf(),
                pattern.rows == 64,
                pattern.channels == num_channels,
                pattern.ticks_per_row == 6,
                pattern.rows_per_beat.is_none(),
                forall|r: int, c: int| 0 <= r < row && 0 <= c < num_channels ==> {
                    let o = (r * num_channels + c) * 4;
                    #[trigger] pattern.cell_at(r, c) == mod_cell_spec(data@[o], data@[o + 1], data@[o + 2], data@[o + 3])
                },
                forall|c: int| 0 <= c < ch ==> {
                    let o = (row * num_channels + c) * 4;
                    #[trigger] pattern.cell_at(row as int, c) == mod_cell_spec(data@[o], data@[o + 1], data@[o + 2], data@[o + 3])
                },
            decreases num_channels - ch,
        {
            proof {
                assert((row * num_channels + ch) * 4 + 4 <= 64 * 255 * 4 + 4) by (nonlinear_arith)
                    requires row < 64, ch < num_channels, num_channels <= 255;
            }
            let offset = (row as usize * num_channels as usize + ch as usize) * 4;
            if offset + 4 > data.len() {
                proof {
                    assert(256 * num_channels >= offset + 4) by (nonlinear_arith)
                        requires offset == (row * num_channels + ch) * 4, row < 64, ch < num_channels;
                }
                return Err(FormatError::UnexpectedEof);
            }
            let cell = parse_cell(slice_range(data, offset, offset + 4));
            let ghost before = pattern;
            pattern.set_cell(row, ch, cell);
            proof {
                crate::pattern::lemma_cell_index_in_bounds(row as int, ch as int, 64, num_channels as int);
                assert(pattern.cell_at(row as int, ch as int) == cell);
                assert(offset == (row * num_channels + ch) * 4);
                let sub = data@.subrange(offset as int, offset + 4);
                assert(sub[0] == data@[offset as int] && sub[1] == data@[offset + 1] && sub[2] == data@[offset + 2] && sub[3] == data@[offset + 3]);
                assert forall|r: int, c: int| 0 <= r < 64 && 0 <= c < num_channels && !(r == row && c == ch) implies
                    #[trigger] pattern.cell_at(r, c) == before.cell_at(r, c) by {
                    crate::pattern::lemma_cell_index_in_bounds(r, c, 64, num_channels as int);
                    crate::pattern::lemma_cell_index_in_bounds(row as int, ch as int, 64, num_channels as int);
                    lemma_index_injective(r, c, row as int, ch as int, num_channels as int);
                }
            }
            ch = ch + 1;
        }
        proof {
            if num_channels > 0 {
                assert(data@.len() >= (row + 1) * num_channels * 4) by (nonlinear_arith)
                    requires data@.len() >= (row * num_channels + num_channels) * 4;
            }
        }
        row = row + 1;
    }
    proof {
        if num_channels > 0 {
            assert(data@.len() >= 256 * num_channels);
        }
    }
    Ok(pattern)
}

pub(crate) proof fn lemma_index_injective(r1: int, c1: int, r2: int, c2: int, n: int)
    requires
        0 <= c1 < n,
        0 <= c2 < n,
        0 <= r1,
        0 <= r2,
        !(r1 == r2 && c1 == c2),
    ensures
        r1 * n + c1 != r2 * n + c2,
{
    if r1 == r2 {
    } else if r1 < r2 {
        assert(r1 * n + c1 < r2 * n + c2) by (nonlinear_arith) requires r1 < r2, 0 <= c1 < n, 0 <= c2;
    } else {
        assert(r2 * n + c2 < r1 * n + c1) by (nonlinear_arith) requires r2 < r1, 0 <= c2 < n, 0 <= c1;
    }
}

/// The items `start..end` of a slice.
pub(crate) fn slice_range<T>(data: &[T], start: usize, end: usize) -> (r: &[T])
    requires
        start <= end <= data@.len(),
    ensures
        r@ == data@.subrange(start as int, end as int),
{
    let (head, _) = data.split_at(end);
    let (_, tail) = head.split_at(start);
    tail
}

/// Channel count from the signature at offset 1080: "M.K.", "M!K!" and
/// "FLT4" give 4, "6CHN" gives 6, "8CHN" and "OCTA" give 8; anything else is
/// taken as 4.
pub open spec fn mod_channel_count(sig: Seq<u8>) -> u8 {
    if sig == seq![77u8, 46, 75, 46] || sig == seq![77u8, 33, 75, 33] || sig == seq![70u8, 76, 84, 52] {
        4
    } else if sig == seq![54u8, 67, 72, 78] {
        6
    } else if sig == seq![56u8, 67, 72, 78] || sig == seq![79u8, 67, 84, 65] {
        8
    } else {
        4
    }
}

/// The largest byte of `s` (zero for none).
pub open spec fn max_byte(s: Seq<u8>) -> u8
    decreases s.len(),
{
    if s.len() == 0 {
        0
    } else {
        let m = max_byte(s.drop_last());
        if s.last() > m { s.last() } else { m }
    }
}

/// The highest pattern number in the 128-entry order table.
pub open spec fn mod_max_pattern(data: Seq<u8>) -> int {
    max_byte(data.subrange(952, 1080)) as int
}

/// Bytes of one pattern: 64 rows of 4-byte cells.
pub open spec fn mod_pattern_size(channels: int) -> int {
    64 * channels * 4
}

/// Patterns stored in the file: up to the highest one in the order table, as
/// far as the file holds whole patterns.
pub open spec fn mod_pattern_count(data: Seq<u8>, channels: int) -> int {
    let fit = (data.len() - 1084) / mod_pattern_size(channels);
    if fit < mod_max_pattern(data) + 1 { fit } else { mod_max_pattern(data) + 1 }
}

/// The bytes of pattern `k`.
pub open spec fn mod_pattern_bytes(data: Seq<u8>, channels: int, k: int) -> Seq<u8> {
    data.subrange(1084 + k * mod_pattern_size(channels), 1084 + (k + 1) * mod_pattern_size(channels))
}

/// The order list: the first `data[950]` entries of the order table.
pub open spec fn mod_order(data: Seq<u8>) -> Seq<OrderEntry> {
    Seq::new(data[950] as nat, |i: int| OrderEntry::Pattern(data[952 + i]))
}

/// The 30-byte header of sample `i`.
pub open spec fn mod_header(data: Seq<u8>, i: int) -> Seq<u8> {
    data.subrange(20 + 30 * i, 50 + 30 * i)
}

/// Sample data of `len` frames at `off` is loaded: it is not empty and the
/// file holds all of it.
pub open spec fn sample_fits(data: Seq<u8>, off: int, len: int) -> bool {
    len > 0 && off + len <= data.len()
}

/// Where the data of sample `i` is looked for: right after the patterns, past
/// the data of every earlier sample that was loaded.
pub open spec fn mod_sample_offset(data: Seq<u8>, channels: int, i: int) -> int
    decreases i,
{
    if i <= 0 {
        1084 + (mod_max_pattern(data) + 1) * mod_pattern_size(channels)
    } else {
        let o = mod_sample_offset(data, channels, i - 1);
        let len = header_length(mod_header(data, i - 1));
        if sample_fits(data, o, len) { o + len } else { o }
    }
}

/// Loop end of the header `h` (zero without a loop).
pub open spec fn header_loop_end(h: Seq<u8>) -> int {
    if header_loop_length(h) > 2 { header_loop_start(h) + header_loop_length(h) } else { 0 }
}

/// Sample `i` as loaded from the file: its header's settings, and either its
/// data from the file (signed bytes) with the loop end clamped to the
/// length, or, when the data is missing, silence of the header's length.
pub open spec fn mod_sample(s: Sample, data: Seq<u8>, channels: int, i: int) -> bool {
    let h = mod_header(data, i);
    let off = mod_sample_offset(data, channels, i);
    let len = header_length(h);
    &&& header_settings(s, h)
    &&& s.data matches SampleData::Mono8(v) && v@.len() == len && if sample_fits(data, off, len) {
        forall|j: int| 0 <= j < len ==> #[trigger] v@[j] == byte_as_i8(data[off + j])
    } else {
        forall|j: int| 0 <= j < len ==> #[trigger] v@[j] == 0
    }
    &&& s.loop_end == if sample_fits(data, off, len) && header_loop_end(h) > len { len } else { header_loop_end(h) }
}

/// Instrument `i` of a MOD song: named "Sample <i + 1>", every note playing
/// sample `i`.
pub open spec fn mod_instrument(inst: Instrument, i: int) -> bool {
    &&& name26_bytes(inst.name) == fitted(encode_utf8("Sample "@ + decimal_chars((i + 1) as nat)), 26)
    &&& forall|n: int| 0 <= n < 120 ==> inst.sample_map@[n] == i
    &&& inst.volume_envelope.is_none()
    &&& inst.panning_envelope.is_none()
    &&& inst.pitch_envelope.is_none()
    &&& inst.fadeout == 0
}

/// The patterns of a track's clips.
pub open spec fn clip_patterns(t: Track) -> Seq<Pattern> {
    Seq::new(t.clips@.len(), |k: int| t.clips@[k].pattern_spec())
}

/// The song a MOD file describes.
pub open spec fn mod_song(song: Song, data: Seq<u8>) -> bool {
    let channels = mod_channel_count(data.subrange(1080, 1084));
    &&& name32_bytes(song.title) == fitted(encode_utf8(field_text(data.subrange(0, 20))), 32)
    &&& song.initial_tempo == 125
    &&& song.initial_speed == 6
    &&& song.rows_per_beat == 4
    &&& song.global_volume == 64
    &&& tracker_graph(song.graph)
    &&& song.channels@.len() == channels
    &&& forall|i: int| 0 <= i < channels ==> #[trigger] song.channels@[i] == (ChannelSettings {
        initial_pan: amiga_pan(i),
        initial_vol: 64,
        muted: false,
    })
    &&& song.samples@.len() == 31
    &&& forall|i: int| 0 <= i < 31 ==> mod_sample(#[trigger] song.samples@[i], data, channels as int, i)
    &&& song.instruments@.len() == 31
    &&& forall|i: int| 0 <= i < 31 ==> mod_instrument(#[trigger] song.instruments@[i], i)
    &&& song.tracks@.len() == 1
    &&& ({
        let t = song.tracks@[0];
        &&& t.machine_node == first_named_from(song.graph, "Tracker"@, 0)
        &&& t.base_channel == 0
        &&& t.num_channels == channels
        &&& t.group == Some(0u16)
        &&& !t.muted
        &&& t.clips@.len() == mod_pattern_count(data, channels as int)
        &&& forall|k: int| 0 <= k < t.clips@.len() ==>
            mod_pattern(#[trigger] t.clips@[k].pattern_spec(), mod_pattern_bytes(data, channels as int, k), channels)
        &&& t.sequence@ == sequence_from_order(mod_order(data), clip_patterns(t), 4, 0, MusicalTime { beat: 0, sub_beat: 0 })
    })
}

fn mod_channels_of(sig: &[u8]) -> (r: u8)
    requires
        sig@.len() == 4,
    ensures
        r == mod_channel_count(sig@),
{
    let (a, b, c, d) = (sig[0], sig[1], sig[2], sig[3]);
    proof {
        assert(sig@ =~= seq![a, b, c, d]);
    }
    if (a == 77 && b == 46 && c == 75 && d == 46) || (a == 77 && b == 33 && c == 75 && d == 33)
        || (a == 70 && b == 76 && c == 84 && d == 52) {
        4
    } else if a == 54 && b == 67 && c == 72 && d == 78 {
        6
    } else if (a == 56 && b == 67 && c == 72 && d == 78) || (a == 79 && b == 67 && c == 84 && d == 65) {
        8
    } else {
        4
    }
}

fn max_order_pattern(data: &[u8]) -> (r: u8)
    requires
        data@.len() >= 1080,
    ensures
        r == mod_max_pattern(data@),
{
    let mut m: u8 = 0;
    let mut i: usize = 952;
    proof {
        assert(data@.subrange(952, 952) =~= Seq::<u8>::empty());
    }
    while i < 1080
        invariant
            952 <= i <= 1080,
            data@.len() >= 1080,
            m == max_byte(data@.subrange(952, i as int)),
        decreases 1080 - i,
    {
        proof {
            assert(data@.subrange(952, i + 1).drop_last() =~= data@.subrange(952, i as int));
        }
        if data[i] > m {
            m = data[i];
        }
        i = i + 1;
    }
    m
}

fn parse_mod_order(data: &[u8]) -> (r: Vec<OrderEntry>)
    requires
        data@.len() >= 951,
        952 + data@[950] <= data@.len(),
    ensures
        r@ == mod_order(data@),
{
    let song_length = data[950] as usize;
    let mut order: Vec<OrderEntry> = Vec::new();
    let mut i: usize = 0;
    while i < song_length
        invariant
            song_length == data@[950],
            952 + song_length <= data@.len(),
            i <= song_length,
            order@ =~= mod_order(data@).take(i as int),
        decreases song_length - i,
    {
        order.push(OrderEntry::Pattern(data[952 + i]));
        i = i + 1;
    }
    proof {
        assert(mod_order(data@).take(i as int) =~= mod_order(data@));
    }
    order
}

fn parse_mod_patterns(data: &[u8], num_channels: u8, max_pattern: u8) -> (r: Vec<Pattern>)
    requires
        data@.len() >= 1084,
        num_channels > 0,
        max_pattern == mod_max_pattern(data@),
    ensures
        r@.len() == mod_pattern_count(data@, num_channels as int),
        forall|k: int| 0 <= k < r@.len() ==> mod_pattern(#[trigger] r@[k], mod_pattern_bytes(data@, num_channels as int, k), num_channels),
{
    let pattern_size: usize = 64 * num_channels as usize * 4;
    let ghost size = mod_pattern_size(num_channels as int);
    let ghost fit = (data@.len() - 1084) / size;
    let mut patterns: Vec<Pattern> = Vec::new();
    let mut pat_idx: usize = 0;
    while pat_idx <= max_pattern as usize
        invariant_except_break
            pat_idx <= max_pattern + 1,
            pat_idx <= fit,
        invariant
            pattern_size == size,
            size == 256 * num_channels,
            num_channels > 0,
            data@.len() >= 1084,
            fit == (data@.len() - 1084) / size,
            max_pattern == mod_max_pattern(data@),
            patterns@.len() == pat_idx,
            forall|k: int| 0 <= k < patterns@.len() ==> mod_pattern(#[trigger] patterns@[k], mod_pattern_bytes(data@, num_channels as int, k), num_channels),
        ensures
            patterns@.len() == mod_pattern_count(data@, num_channels as int),
        decreases max_pattern + 1 - pat_idx,
    {
        proof {
            assert(pat_idx * size <= 255 * 65280) by (nonlinear_arith) requires pat_idx <= 255, size <= 65280;
        }
        let pat_offset = 1084 + pat_idx * pattern_size;
        if pat_offset + pattern_size > data.len() {
            proof {
                assert(fit == pat_idx) by (nonlinear_arith)
                    requires
                        fit == (data@.len() - 1084) / size,
                        pat_idx <= fit,
                        1084 + pat_idx * size + size > data@.len(),
                        size > 0,
                        data@.len() >= 1084,
                ;
            }
            break;
        }
        proof {
            assert(pat_idx + 1 <= fit) by (nonlinear_arith)
                requires
                    fit == (data@.len() - 1084) / size,
                    1084 + pat_idx * size + size <= data@.len(),
                    size > 0,
            ;
        }
        let bytes = slice_range(data, pat_offset, pat_offset + pattern_size);
        match parse_pattern(bytes, num_channels) {
            Ok(p) => {
                proof {
                    assert(pat_offset + pattern_size == 1084 + (pat_idx + 1) * size) by (nonlinear_arith)
                        requires pat_offset == 1084 + pat_idx * size, pattern_size == size;
                }
                patterns.push(p);
            },
            Err(_) => {
                proof {
                    assert(false);
                }
            },
        }
        pat_idx = pat_idx + 1;
    }
    patterns
}

fn signed_bytes(data: &[u8], start: usize, len: usize) -> (r: Vec<i8>)
    requires
        start + len <= data.len(),
    ensures
        r@.len() == len,
        forall|j: int| 0 <= j < len ==> #[trigger] r@[j] == byte_as_i8(data@[start + j]),
{
    let mut v: Vec<i8> = Vec::new();
    let mut j: usize = 0;
    while j < len
        invariant
            start + len <= data.len(),
            j <= len,
            v@.len() == j,
            forall|k: int| 0 <= k < j ==> #[trigger] v@[k] == byte_as_i8(data@[start + k]),
        decreases len - j,
    {
        v.push(signed_byte(data[start + j]));
        j = j + 1;
    }
    v
}

fn load_mod_samples(data: &[u8], num_channels: u8, max_pattern: u8) -> (r: Vec<Sample>)
    requires
        data@.len() >= 1084,
        max_pattern == mod_max_pattern(data@),
    ensures
        r@.len() == 31,
        forall|i: int| 0 <= i < 31 ==> mod_sample(#[trigger] r@[i], data@, num_channels as int, i),
{
    let pattern_size: usize = 64 * num_channels as usize * 4;
    proof {
        assert((max_pattern + 1) * pattern_size <= 256 * 65280) by (nonlinear_arith)
            requires max_pattern <= 255, pattern_size == 256 * num_channels, num_channels <= 255;
    }
    let mut sample_offset: usize = 1084 + (max_pattern as usize + 1) * pattern_size;
    let mut samples: Vec<Sample> = Vec::new();
    let mut i: usize = 0;
    while i < 31
        invariant
            data@.len() >= 1084,
            max_pattern == mod_max_pattern(data@),
            i <= 31,
            samples@.len() == i,
            sample_offset == mod_sample_offset(data@, num_channels as int, i as int),
            forall|k: int| 0 <= k < i ==> mod_sample(#[trigger] samples@[k], data@, num_channels as int, k),
        decreases 31 - i,
    {
        let header_offset = 20 + i * 30;
        let mut sample = match parse_sample_header(slice_range(data, header_offset, header_offset + 30)) {
            Ok(s) => s,
            Err(_) => {
                proof {
                    assert(false);
                }
                Sample::default()
            },
        };
        let ghost h = mod_header(data@, i as int);
        let len = sample.len();
        proof {
            assert(header_length(h) <= 131070);
        }
        if len > 0 && sample_offset <= data.len() && len <= data.len() - sample_offset {
            sample.data = SampleData::Mono8(signed_bytes(data, sample_offset, len));
            sample_offset = sample_offset + len;
            // Clamp loop bounds to actual sample length (common in real MOD files)
            if sample.loop_end > len as u32 {
                sample.loop_end = len as u32;
            }
        }
        samples.push(sample);
        i = i + 1;
    }
    samples
}

fn mod_instruments() -> (r: Vec<Instrument>)
    ensures
        r@.len() == 31,
        forall|i: int| 0 <= i < 31 ==> mod_instrument(#[trigger] r@[i], i),
{
    let mut instruments: Vec<Instrument> = Vec::new();
    let mut i: usize = 0;
    while i < 31
        invariant
            i <= 31,
            instruments@.len() == i,
            forall|k: int| 0 <= k < i ==> mod_instrument(#[trigger] instruments@[k], k),
        decreases 31 - i,
    {
        let label = sample_label_text(i + 1);
        let mut inst = Instrument::new(label.as_str());
        inst.set_single_sample(i as u8);
        instruments.push(inst);
        i = i + 1;
    }
    instruments
}

/// Load a MOD file from bytes.
pub fn load_mod(data: &[u8]) -> (r: Result<Song, FormatError>)
    requires
        data@.len() >= 1084 ==> 952 + data@[950] <= data@.len(),
    ensures
        data@.len() < 1084 <==> r is Err,
        r is Err ==> r == Err::<Song, FormatError>(FormatError::UnexpectedEof),
        r matches Ok(song) ==> mod_song(song, data@),
{
    if data.len() < 1084 {
        return Err(FormatError::UnexpectedEof);
    }
    // Detect format by the signature at offset 1080
    let num_channels = mod_channels_of(slice_range(data, 1080, 1084));
    let title = parse_string(slice_range(data, 0, 20));
    let mut song = Song::with_channels(title.as_str(), num_channels);
    song.rows_per_beat = 4;
    let order = parse_mod_order(data);
    let max_pattern = max_order_pattern(data);
    let patterns = parse_mod_patterns(data, num_channels, max_pattern);
    song.samples = load_mod_samples(data, num_channels, max_pattern);
    song.instruments = mod_instruments();
    song.initial_tempo = 125;
    song.initial_speed = 6;
    proof {
        assert forall|i: int| 0 <= i < order@.len() implies match #[trigger] order@[i] {
            OrderEntry::Pattern(idx) => (idx as int) < patterns@.len() ==> crate::song::effective_rpb(patterns@[idx as int], 4) > 0,
            _ => true,
        } by {}
    }
    assert(song.channels@.len() as u8 != 0);
    let ghost before = song;
    build_tracks(&mut song, patterns.as_slice(), order.as_slice());
    proof {
        let t = song.tracks@[0];
        crate::song::lemma_first_named_same_nodes(before.graph, song.graph, "Tracker"@, 0);
        assert(same_shapes(clip_patterns(t), patterns@));
        lemma_sequence_same_shapes(order@, clip_patterns(t), patterns@, 4, 0, MusicalTime { beat: 0, sub_beat: 0 });
        assert forall|k: int| 0 <= k < t.clips@.len() implies
            mod_pattern(#[trigger] t.clips@[k].pattern_spec(), mod_pattern_bytes(data@, num_channels as int, k), num_channels) by {
            let cp = t.clips@[k].pattern_spec();
            let pp = patterns@[k];
            assert(same_pattern(cp, pp));
            assert(mod_pattern(pp, mod_pattern_bytes(data@, num_channels as int, k), num_channels));
            assert forall|r: int, c: int| 0 <= r < 64 && 0 <= c < num_channels implies #[trigger] cp.cell_at(r, c) == pp.cell_at(r, c) by {}
        }
    }
    Ok(song)
}

} // verus!
