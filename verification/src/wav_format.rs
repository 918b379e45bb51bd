//! WAV encoding and decoding for PCM audio.
use vstd::prelude::*;
use crate::format_error::FormatError;
use crate::frame::Frame;
use crate::mod_format::slice_range;
use crate::names::{fitted, name26_bytes};
use crate::sample::{LoopType, Sample, SampleData};
use crate::scheduler::byte_as_i8;
use vstd::string::StringSliceAdditionalSpecFns;

verus! {

/// Little-endian bytes of a 16-bit word.
pub open spec fn le16_bytes(x: int) -> Seq<u8> {
    seq![(x % 256) as u8, (x / 256 % 256) as u8]
}

/// Little-endian bytes of a 32-bit word.
pub open spec fn le32_bytes(x: int) -> Seq<u8> {
    seq![(x % 256) as u8, (x / 256 % 256) as u8, (x / 65536 % 256) as u8, (x / 16777216 % 256) as u8]
}

/// The two's complement bits of a 16-bit sample.
pub open spec fn i16_bits(v: i16) -> int {
    if v >= 0 { v as int } else { v + 65536 }
}

/// The data chunk bytes of the frames, left then right, each little-endian.
pub open spec fn frame_bytes(frames: Seq<Frame>) -> Seq<u8>
    decreases frames.len(),
{
    if frames.len() == 0 {
        seq![]
    } else {
        frame_bytes(frames.drop_last()) + le16_bytes(i16_bits(frames.last().left)) + le16_bytes(i16_bits(frames.last().right))
    }
}

/// The 44 header bytes of a 16-bit stereo PCM WAV file of `frames` at
/// `sample_rate`: "RIFF", its size, "WAVE", the format chunk, and the data
/// chunk's tag and size.
#[verifier::opaque]
pub open spec fn wav_head(frames: Seq<Frame>, sample_rate: int) -> Seq<u8> {
    let data_size: int = frames.len() as int * 4;
    seq![82u8, 73, 70, 70] + le32_bytes(36 + data_size) + seq![87u8, 65, 86, 69]
        + seq![102u8, 109, 116, 32] + le32_bytes(16) + le16_bytes(1) + le16_bytes(2)
        + le32_bytes(sample_rate) + le32_bytes(sample_rate * 4) + le16_bytes(4) + le16_bytes(16)
        + seq![100u8, 97, 116, 97] + le32_bytes(data_size)
}

/// A 16-bit stereo PCM WAV file of `frames` at `sample_rate`.
pub open spec fn wav_file(frames: Seq<Frame>, sample_rate: int) -> Seq<u8> {
    wav_head(frames, sample_rate) + frame_bytes(frames)
}

fn push_le16(buf: &mut Vec<u8>, x: u16)
    ensures
        final(buf)@ == old(buf)@ + le16_bytes(x as int),
{
    let lo = (x & 0xFF) as u8;
    let hi = (x >> 8) as u8;
    assert(lo == x % 256 && hi == x / 256 % 256) by (bit_vector)
        requires lo == (x & 0xFFu16) as u8, hi == (x >> 8u16) as u8;
    buf.push(lo);
    buf.push(hi);
    assert(buf@ =~= old(buf)@ + le16_bytes(x as int));
}

fn push_le32(buf: &mut Vec<u8>, x: u32)
    ensures
        final(buf)@ == old(buf)@ + le32_bytes(x as int),
{
    let b0 = (x & 0xFF) as u8;
    let b1 = ((x >> 8) & 0xFF) as u8;
    let b2 = ((x >> 16) & 0xFF) as u8;
    let b3 = (x >> 24) as u8;
    assert(b0 == x % 256 && b1 == x / 256 % 256 && b2 == x / 65536 % 256 && b3 == x / 16777216 % 256) by (bit_vector)
        requires
            b0 == (x & 0xFFu32) as u8,
            b1 == ((x >> 8u32) & 0xFFu32) as u8,
            b2 == ((x >> 16u32) & 0xFFu32) as u8,
            b3 == (x >> 24u32) as u8,
    ;
    buf.push(b0);
    buf.push(b1);
    buf.push(b2);
    buf.push(b3);
    assert(buf@ =~= old(buf)@ + le32_bytes(x as int));
}

fn push_tag(buf: &mut Vec<u8>, a: u8, b: u8, c: u8, d: u8)
    ensures
        final(buf)@ == old(buf)@ + seq![a, b, c, d],
{
    buf.push(a);
    buf.push(b);
    buf.push(c);
    buf.push(d);
    assert(buf@ =~= old(buf)@ + seq![a, b, c, d]);
}

fn sample_bits(v: i16) -> (r: u16)
    ensures
        r == i16_bits(v),
{
    let r = v as u16;
    assert(r == if v >= 0 { v as int } else { v + 65536 }) by (bit_vector)
        requires r == v as u16;
    r
}

/// Encode frames as a 16-bit stereo PCM WAV file.
pub fn frames_to_wav(frames: &[Frame], sample_rate: u32) -> (r: Vec<u8>)
    requires
        36 + frames@.len() * 4 <= u32::MAX,
        sample_rate * 4 <= u32::MAX,
    ensures
        r@ == wav_file(frames@, sample_rate as int),
        le32_at(r@, 24) == sample_rate,
        le16_at(r@, 32) == 4,
        le32_at(r@, 28) == sample_rate * 4,
{
    let num_channels: u16 = 2;
    let bits_per_sample: u16 = 16;
    let block_align: u16 = num_channels * (bits_per_sample / 8);
    let data_size = frames.len() as u32 * block_align as u32;
    let mut buf: Vec<u8> = Vec::new();
    // RIFF header
    push_tag(&mut buf, 82, 73, 70, 70);
    push_le32(&mut buf, 36 + data_size);
    push_tag(&mut buf, 87, 65, 86, 69);
    // fmt chunk
    push_tag(&mut buf, 102, 109, 116, 32);
    push_le32(&mut buf, 16);
    push_le16(&mut buf, 1);
    push_le16(&mut buf, num_channels);
    push_le32(&mut buf, sample_rate);
    push_le32(&mut buf, sample_rate * block_align as u32);
    push_le16(&mut buf, block_align);
    push_le16(&mut buf, bits_per_sample);
    // data chunk
    push_tag(&mut buf, 100, 97, 116, 97);
    push_le32(&mut buf, data_size);
    let ghost header = buf@;
    proof {
        reveal(wav_head);
        assert(header =~= wav_head(frames@, sample_rate as int));
        assert(frames@.take(0) =~= Seq::<Frame>::empty());
        assert(header + frame_bytes(frames@.take(0)) =~= header);
    }
    let mut i: usize = 0;
    while i < frames.len()
        invariant
            i <= frames@.len(),
            buf@ == header + frame_bytes(frames@.take(i as int)),
        decreases frames@.len() - i,
    {
        let f = frames[i];
        push_le16(&mut buf, sample_bits(f.left));
        push_le16(&mut buf, sample_bits(f.right));
        proof {
            assert(frames@.take(i + 1).drop_last() =~= frames@.take(i as int));
            assert(frames@.take(i + 1).last() == f);
            assert(buf@ =~= header + frame_bytes(frames@.take(i + 1)));
        }
        i = i + 1;
    }
    proof {
        assert(frames@.take(i as int) =~= frames@);
        assert(buf@ =~= wav_file(frames@, sample_rate as int));
        lemma_wav_header_rates(frames@, sample_rate);
    }
    buf
}

/// The little-endian 16-bit word at `o`.
pub open spec fn le16_at(d: Seq<u8>, o: int) -> nat {
    d[o] as nat + (d[o + 1] as nat) * 256
}

/// The little-endian 32-bit word at `o`.
pub open spec fn le32_at(d: Seq<u8>, o: int) -> nat {
    d[o] as nat + (d[o + 1] as nat) * 256 + (d[o + 2] as nat) * 65536 + (d[o + 3] as nat) * 16777216
}

/// The four bytes at `o` are `tag`.
pub open spec fn tag_at(d: Seq<u8>, o: int, tag: Seq<u8>) -> bool {
    d.subrange(o, o + 4) == tag
}

/// "fmt " chunk tag.
pub open spec fn fmt_tag() -> Seq<u8> {
    seq![102u8, 109, 116, 32]
}

/// "data" chunk tag.
pub open spec fn data_tag() -> Seq<u8> {
    seq![100u8, 97, 116, 97]
}

/// Where the chunk after the one at `pos` starts (chunks are padded to an
/// even offset).
pub open spec fn next_chunk(d: Seq<u8>, pos: int) -> int {
    let p = pos + 8 + le32_at(d, pos + 4);
    if p % 2 != 0 { p + 1 } else { p }
}

/// Bytes left from `pos` on, plus one (zero past the end).
pub open spec fn chunks_left(d: Seq<u8>, pos: int) -> int {
    if pos <= d.len() { d.len() - pos + 1 } else { 0 }
}

/// The chunk at `pos` is a format chunk that is read.
pub open spec fn is_fmt_chunk(d: Seq<u8>, pos: int) -> bool {
    tag_at(d, pos, fmt_tag()) && le32_at(d, pos + 4) >= 16
}

/// Format (channels, rate, bits) and data chunk (offset, size) found by
/// walking the chunks from `pos` on, later chunks overriding earlier ones;
/// a format chunk that is not PCM is an error.
pub open spec fn walk_chunks(
    d: Seq<u8>,
    pos: int,
    fmt: Option<(u16, u32, u16)>,
    dc: Option<(int, int)>,
) -> Result<(Option<(u16, u32, u16)>, Option<(int, int)>), FormatError>
    decreases chunks_left(d, pos),
{
    if pos < 0 || pos + 8 > d.len() {
        Ok((fmt, dc))
    } else if is_fmt_chunk(d, pos) {
        if le16_at(d, pos + 8) != 1 {
            Err(FormatError::UnsupportedVersion)
        } else {
            walk_chunks(d, next_chunk(d, pos), Some((le16_at(d, pos + 10) as u16, le32_at(d, pos + 12) as u32, le16_at(d, pos + 22) as u16)), dc)
        }
    } else if tag_at(d, pos, data_tag()) {
        walk_chunks(d, next_chunk(d, pos), fmt, Some((pos + 8, le32_at(d, pos + 4) as int)))
    } else {
        walk_chunks(d, next_chunk(d, pos), fmt, dc)
    }
}

/// Every format chunk the walk reads lies wholly in the file.
pub open spec fn walk_reads_ok(d: Seq<u8>, pos: int) -> bool
    decreases chunks_left(d, pos),
{
    if pos < 0 || pos + 8 > d.len() {
        true
    } else if is_fmt_chunk(d, pos) {
        pos + 24 <= d.len() && (le16_at(d, pos + 8) != 1 || walk_reads_ok(d, next_chunk(d, pos)))
    } else {
        walk_reads_ok(d, next_chunk(d, pos))
    }
}

/// The header of a WAV file: channels, rate, bits, data offset and size.
pub open spec fn wav_header_spec(d: Seq<u8>) -> Result<(u16, u32, u16, int, int), FormatError> {
    if d.len() < 44 {
        Err(FormatError::UnexpectedEof)
    } else if !tag_at(d, 0, seq![82u8, 73, 70, 70]) || !tag_at(d, 8, seq![87u8, 65, 86, 69]) {
        Err(FormatError::InvalidHeader)
    } else {
        match walk_chunks(d, 12, None, None) {
            Err(e) => Err(e),
            Ok((fmt, dc)) => match (fmt, dc) {
                (Some((channels, rate, bits)), Some((offset, size))) => {
                    if bits != 8 && bits != 16 {
                        Err(FormatError::UnsupportedVersion)
                    } else if !(1 <= channels <= 2) {
                        Err(FormatError::UnsupportedVersion)
                    } else {
                        Ok((channels, rate, bits, offset, size))
                    }
                },
                _ => Err(FormatError::InvalidHeader),
            },
        }
    }
}

/// A WAV file can be walked: the format chunks read lie in the file.
pub open spec fn wav_readable(d: Seq<u8>) -> bool {
    d.len() >= 44 ==> walk_reads_ok(d, 12)
}

proof fn lemma_next_chunk_advances(d: Seq<u8>, pos: int)
    requires
        0 <= pos,
        pos + 8 <= d.len(),
    ensures
        pos + 8 <= next_chunk(d, pos) <= pos + 9 + 0xffff_ffff,
        le32_at(d, pos + 4) <= 0xffff_ffff,
{
    assert(0 <= le32_at(d, pos + 4) <= 0xffff_ffff) by (nonlinear_arith)
        requires
            0 <= d[pos + 4] < 256, 0 <= d[pos + 5] < 256, 0 <= d[pos + 6] < 256, 0 <= d[pos + 7] < 256,
            le32_at(d, pos + 4) == d[pos + 4] as nat + (d[pos + 5] as nat) * 256 + (d[pos + 6] as nat) * 65536 + (d[pos + 7] as nat) * 16777216;
}

fn read_u16_le(data: &[u8], offset: usize) -> (r: u16)
    requires
        offset + 2 <= data@.len(),
    ensures
        r == le16_at(data@, offset as int),
{
    data[offset] as u16 + data[offset + 1] as u16 * 256
}

fn read_u32_le(data: &[u8], offset: usize) -> (r: u32)
    requires
        offset + 4 <= data@.len(),
    ensures
        r == le32_at(data@, offset as int),
{
    data[offset] as u32 + data[offset + 1] as u32 * 256 + data[offset + 2] as u32 * 65536 + data[offset + 3] as u32 * 16777216
}

fn tag_is(data: &[u8], o: usize, a: u8, b: u8, c: u8, e: u8) -> (r: bool)
    requires
        o + 4 <= data@.len(),
    ensures
        r == tag_at(data@, o as int, seq![a, b, c, e]),
{
    let r = data[o] == a && data[o + 1] == b && data[o + 2] == c && data[o + 3] == e;
    proof {
        if r {
            assert(data@.subrange(o as int, o + 4) =~= seq![a, b, c, e]);
        } else {
            if data@.subrange(o as int, o + 4) == seq![a, b, c, e] {
                assert(data@.subrange(o as int, o + 4)[0] == a);
                assert(data@.subrange(o as int, o + 4)[1] == b);
                assert(data@.subrange(o as int, o + 4)[2] == c);
                assert(data@.subrange(o as int, o + 4)[3] == e);
            }
        }
    }
    r
}

/// The parsed header of a WAV file.
pub struct WavHeader {
    /// Channel count (1 or 2)
    pub num_channels: u16,
    /// Sample rate in Hz
    pub sample_rate: u32,
    /// Bits per sample (8 or 16)
    pub bits_per_sample: u16,
    /// Offset of the sample data
    pub data_offset: usize,
    /// Declared size of the sample data
    pub data_size: usize,
}

/// Parse the header and chunk directory of a WAV file.
pub fn parse_header(data: &[u8]) -> (r: Result<WavHeader, FormatError>)
    requires
        wav_readable(data@),
    ensures
        match (r, wav_header_spec(data@)) {
            (Ok(h), Ok((channels, rate, bits, offset, size))) => h.num_channels == channels && h.sample_rate == rate
                && h.bits_per_sample == bits && h.data_offset == offset && h.data_size == size,
            (Err(e1), Err(e2)) => e1 == e2,
            _ => false,
        },
{
    if data.len() < 44 {
        return Err(FormatError::UnexpectedEof);
    }
    if !tag_is(data, 0, 82, 73, 70, 70) || !tag_is(data, 8, 87, 65, 86, 69) {
        return Err(FormatError::InvalidHeader);
    }
    let mut pos: u128 = 12;
    let mut fmt: Option<(u16, u32, u16)> = None;
    let mut data_chunk: Option<(usize, usize)> = None;
    while pos + 8 <= data.len() as u128
        invariant
            wav_readable(data@),
            data@.len() >= 44,
            tag_at(data@, 0, seq![82u8, 73, 70, 70]),
            tag_at(data@, 8, seq![87u8, 65, 86, 69]),
            data@.len() == data.len(),
            12 <= pos <= data@.len() + 0x1_0000_0009,
            walk_reads_ok(data@, pos as int),
            walk_chunks(data@, 12, None, None) == walk_chunks(
                data@,
                pos as int,
                fmt,
                match data_chunk {
                    Some((o, z)) => Some((o as int, z as int)),
                    None => None,
                },
            ),
        decreases data@.len() + 0x1_0000_0010 - pos,
    {
        let p = pos as usize;
        let chunk_size = read_u32_le(data, p + 4) as usize;
        proof {
            lemma_next_chunk_advances(data@, p as int);
        }
        if tag_is(data, p, 102, 109, 116, 32) && chunk_size >= 16 {
            let format = read_u16_le(data, p + 8);
            if format != 1 {
                proof {
                    assert(is_fmt_chunk(data@, p as int));
                    let dcs = match data_chunk {
                        Some((o, z)) => Some((o as int, z as int)),
                        None => None,
                    };
                    assert(walk_chunks(data@, pos as int, fmt, dcs) == Err::<(Option<(u16, u32, u16)>, Option<(int, int)>), FormatError>(FormatError::UnsupportedVersion));
                    assert(wav_header_spec(data@) == Err::<(u16, u32, u16, int, int), FormatError>(FormatError::UnsupportedVersion));
                }
                return Err(FormatError::UnsupportedVersion);
            }
            let channels = read_u16_le(data, p + 10);
            let rate = read_u32_le(data, p + 12);
            let bits = read_u16_le(data, p + 22);
            fmt = Some((channels, rate, bits));
        } else if tag_is(data, p, 100, 97, 116, 97) {
            data_chunk = Some((p + 8, chunk_size));
        }
        pos = pos + 8 + chunk_size as u128;
        if pos % 2 != 0 {
            pos = pos + 1;
        }
    }
    let (num_channels, sample_rate, bits_per_sample) = match fmt {
        Some(f) => f,
        None => return Err(FormatError::InvalidHeader),
    };
    let (data_offset, data_size) = match data_chunk {
        Some(d) => d,
        None => return Err(FormatError::InvalidHeader),
    };
    if bits_per_sample != 8 && bits_per_sample != 16 {
        return Err(FormatError::UnsupportedVersion);
    }
    if !(1 <= num_channels && num_channels <= 2) {
        return Err(FormatError::UnsupportedVersion);
    }
    Ok(WavHeader { num_channels, sample_rate, bits_per_sample, data_offset, data_size })
}

proof fn lemma_walk_data_offset(d: Seq<u8>, pos: int, fmt: Option<(u16, u32, u16)>, dc: Option<(int, int)>)
    requires
        dc matches Some((o, z)) ==> 0 <= o <= d.len() && 0 <= z <= 0xffff_ffff,
    ensures
        walk_chunks(d, pos, fmt, dc) matches Ok((_, Some((o, z)))) ==> 0 <= o <= d.len() && 0 <= z <= 0xffff_ffff,
    decreases chunks_left(d, pos),
{
    if 0 <= pos && pos + 8 <= d.len() {
        let next = next_chunk(d, pos);
        if is_fmt_chunk(d, pos) {
            if le16_at(d, pos + 8) == 1 {
                lemma_walk_data_offset(d, next, Some((le16_at(d, pos + 10) as u16, le32_at(d, pos + 12) as u32, le16_at(d, pos + 22) as u16)), dc);
            }
        } else if tag_at(d, pos, data_tag()) {
            lemma_next_chunk_advances(d, pos);
            lemma_walk_data_offset(d, next, fmt, Some((pos + 8, le32_at(d, pos + 4) as int)));
        } else {
            lemma_walk_data_offset(d, next, fmt, dc);
        }
    }
}

/// The PCM bytes of the data chunk, cut at the end of the file.
pub open spec fn pcm_bytes(d: Seq<u8>, offset: int, size: int) -> Seq<u8> {
    d.subrange(offset, if offset + size < d.len() { offset + size } else { d.len() as int })
}

/// An unsigned 8-bit sample (centre 128) as a signed one.
pub open spec fn centered(b: u8) -> i8 {
    (b - 128) as i8
}

/// A little-endian signed 16-bit sample.
pub open spec fn le_i16(lo: u8, hi: u8) -> i16 {
    let u = lo + hi * 256;
    (if u < 32768 { u } else { u - 65536 }) as i16
}

/// Sample data decoded from PCM bytes: 8-bit samples are unsigned, 16-bit
/// ones little-endian signed; stereo frames are split into left and right
/// (a trailing partial frame is dropped).
pub open spec fn pcm_data(data: SampleData, raw: Seq<u8>, bits: u16, channels: u16) -> bool {
    if bits == 8 && channels == 1 {
        data matches SampleData::Mono8(v) && v@ == Seq::new(raw.len(), |i: int| centered(raw[i]))
    } else if bits == 8 && channels == 2 {
        data matches SampleData::Stereo8(l, r)
            && l@ == Seq::new(raw.len() / 2, |i: int| centered(raw[2 * i]))
            && r@ == Seq::new(raw.len() / 2, |i: int| centered(raw[2 * i + 1]))
    } else if bits == 16 && channels == 1 {
        data matches SampleData::Mono16(v) && v@ == Seq::new(raw.len() / 2, |i: int| le_i16(raw[2 * i], raw[2 * i + 1]))
    } else {
        data matches SampleData::Stereo16(l, r)
            && l@ == Seq::new(raw.len() / 4, |i: int| le_i16(raw[4 * i], raw[4 * i + 1]))
            && r@ == Seq::new(raw.len() / 4, |i: int| le_i16(raw[4 * i + 2], raw[4 * i + 3]))
    }
}

fn centered_byte(b: u8) -> (r: i8)
    ensures
        r == centered(b),
{
    (b as i16 - 128) as i8
}

fn le_sample(lo: u8, hi: u8) -> (r: i16)
    ensures
        r == le_i16(lo, hi),
{
    let u: u16 = lo as u16 + hi as u16 * 256;
    let r = u as i16;
    assert(r == if u < 32768 { u as int } else { u - 65536 }) by (bit_vector)
        requires r == u as i16;
    r
}

fn read_8bit_mono(raw: &[u8]) -> (r: Vec<i8>)
    ensures
        r@ == Seq::new(raw@.len(), |i: int| centered(raw@[i])),
{
    let mut v: Vec<i8> = Vec::new();
    let mut i: usize = 0;
    while i < raw.len()
        invariant
            i <= raw@.len(),
            v@ =~= Seq::new(i as nat, |k: int| centered(raw@[k])),
        decreases raw@.len() - i,
    {
        v.push(centered_byte(raw[i]));
        i = i + 1;
    }
    v
}

fn read_8bit_stereo(raw: &[u8]) -> (r: (Vec<i8>, Vec<i8>))
    ensures
        r.0@ == Seq::new(raw@.len() / 2, |i: int| centered(raw@[2 * i])),
        r.1@ == Seq::new(raw@.len() / 2, |i: int| centered(raw@[2 * i + 1])),
{
    let n = raw.len() / 2;
    let mut left: Vec<i8> = Vec::new();
    let mut right: Vec<i8> = Vec::new();
    let mut i: usize = 0;
    while i < n
        invariant
            n == raw.len() / 2,
            raw.len() == raw@.len(),
            i <= n,
            left@ =~= Seq::new(i as nat, |k: int| centered(raw@[2 * k])),
            right@ =~= Seq::new(i as nat, |k: int| centered(raw@[2 * k + 1])),
        decreases n - i,
    {
        assert(2 * i + 1 < raw.len()) by (nonlinear_arith) requires i < n, n == raw.len() / 2;
        left.push(centered_byte(raw[2 * i]));
        right.push(centered_byte(raw[2 * i + 1]));
        i = i + 1;
    }
    (left, right)
}

fn read_16bit_mono(raw: &[u8]) -> (r: Vec<i16>)
    ensures
        r@ == Seq::new(raw@.len() / 2, |i: int| le_i16(raw@[2 * i], raw@[2 * i + 1])),
{
    let n = raw.len() / 2;
    let mut v: Vec<i16> = Vec::new();
    let mut i: usize = 0;
    while i < n
        invariant
            n == raw.len() / 2,
            raw.len() == raw@.len(),
            i <= n,
            v@ =~= Seq::new(i as nat, |k: int| le_i16(raw@[2 * k], raw@[2 * k + 1])),
        decreases n - i,
    {
        assert(2 * i + 1 < raw.len()) by (nonlinear_arith) requires i < n, n == raw.len() / 2;
        v.push(le_sample(raw[2 * i], raw[2 * i + 1]));
        i = i + 1;
    }
    v
}

fn read_16bit_stereo(raw: &[u8]) -> (r: (Vec<i16>, Vec<i16>))
    ensures
        r.0@ == Seq::new(raw@.len() / 4, |i: int| le_i16(raw@[4 * i], raw@[4 * i + 1])),
        r.1@ == Seq::new(raw@.len() / 4, |i: int| le_i16(raw@[4 * i + 2], raw@[4 * i + 3])),
{
    let n = raw.len() / 4;
    let mut left: Vec<i16> = Vec::new();
    let mut right: Vec<i16> = Vec::new();
    let mut i: usize = 0;
    while i < n
        invariant
            n == raw.len() / 4,
            raw.len() == raw@.len(),
            i <= n,
            left@ =~= Seq::new(i as nat, |k: int| le_i16(raw@[4 * k], raw@[4 * k + 1])),
            right@ =~= Seq::new(i as nat, |k: int| le_i16(raw@[4 * k + 2], raw@[4 * k + 3])),
        decreases n - i,
    {
        assert(4 * i + 3 < raw.len()) by (nonlinear_arith) requires i < n, n == raw.len() / 4;
        left.push(le_sample(raw[4 * i], raw[4 * i + 1]));
        right.push(le_sample(raw[4 * i + 2], raw[4 * i + 3]));
        i = i + 1;
    }
    (left, right)
}

/// Decode the PCM data described by a header.
fn read_pcm_data(data: &[u8], header: &WavHeader) -> (r: Result<SampleData, FormatError>)
    requires
        header.data_offset <= data@.len(),
        header.bits_per_sample == 8 || header.bits_per_sample == 16,
        1 <= header.num_channels <= 2,
    ensures
        r matches Ok(s) && pcm_data(s, pcm_bytes(data@, header.data_offset as int, header.data_size as int), header.bits_per_sample, header.num_channels),
{
    let end = if header.data_size < data.len() - header.data_offset { header.data_offset + header.data_size } else { data.len() };
    let raw = slice_range(data, header.data_offset, end);
    if header.bits_per_sample == 8 && header.num_channels == 1 {
        Ok(SampleData::Mono8(read_8bit_mono(raw)))
    } else if header.bits_per_sample == 8 && header.num_channels == 2 {
        let (l, r) = read_8bit_stereo(raw);
        Ok(SampleData::Stereo8(l, r))
    } else if header.bits_per_sample == 16 && header.num_channels == 1 {
        Ok(SampleData::Mono16(read_16bit_mono(raw)))
    } else {
        let (l, r) = read_16bit_stereo(raw);
        Ok(SampleData::Stereo16(l, r))
    }
}

/// Load a WAV file from raw bytes into a Sample named `name`: its PCM data,
/// and its sample rate as C-4 rate.
pub fn load_wav(data: &[u8], name: &str) -> (r: Result<Sample, FormatError>)
    requires
        wav_readable(data@),
    ensures
        wav_header_spec(data@) is Err <==> r is Err,
        r matches Err(e) ==> wav_header_spec(data@) == Err::<(u16, u32, u16, int, int), FormatError>(e),
        r matches Ok(s) ==> ({
            let h = wav_header_spec(data@)->Ok_0;
            &&& pcm_data(s.data, pcm_bytes(data@, h.3, h.4), h.2, h.0)
            &&& s.c4_speed == h.1
            &&& name26_bytes(s.name) == fitted(name.spec_bytes(), 26)
            &&& s.loop_start == 0
            &&& s.loop_end == 0
            &&& s.loop_type == LoopType::NoLoop
            &&& s.default_volume == 64
            &&& s.default_pan == 0
            &&& s.vibrato.is_none()
        }),
{
    let header = match parse_header(data) {
        Ok(h) => h,
        Err(e) => return Err(e),
    };
    proof {
        lemma_walk_data_offset(data@, 12, None, None);
    }
    let sample_data = match read_pcm_data(data, &header) {
        Ok(d) => d,
        Err(e) => return Err(e),
    };
    let mut sample = Sample::new(name);
    sample.data = sample_data;
    sample.c4_speed = header.sample_rate;
    Ok(sample)
}

// ---------------------------------------------------------------------------
// Writing then reading
// ---------------------------------------------------------------------------

proof fn lemma_le16_value(x: u16)
    ensures
        le16_bytes(x as int).len() == 2,
        le16_bytes(x as int)[0] as nat + (le16_bytes(x as int)[1] as nat) * 256 == x,
{
    let y = x as u32;
    let b0: u32 = y % 256;
    let b1: u32 = y / 256 % 256;
    assert(b0 + b1 * 256 == y) by (bit_vector)
        requires b0 == y % 256, b1 == y / 256 % 256, y < 65536;
}

proof fn lemma_le32_value(x: u32)
    ensures
        le32_bytes(x as int).len() == 4,
        le32_bytes(x as int)[0] as nat + (le32_bytes(x as int)[1] as nat) * 256 + (le32_bytes(x as int)[2] as nat) * 65536
            + (le32_bytes(x as int)[3] as nat) * 16777216 == x,
{
    let b0: u32 = x % 256;
    let b1: u32 = x / 256 % 256;
    let b2: u32 = x / 65536 % 256;
    let b3: u32 = x / 16777216 % 256;
    assert(b0 + b1 * 256 + b2 * 65536 + b3 * 16777216 == x) by (bit_vector)
        requires
            b0 == x % 256,
            b1 == x / 256 % 256,
            b2 == x / 65536 % 256,
            b3 == x / 16777216 % 256;
}

/// The two bytes of a sample read back as the sample.
proof fn lemma_sample_bytes(v: i16)
    ensures
        le_i16(le16_bytes(i16_bits(v))[0], le16_bytes(i16_bits(v))[1]) == v,
{
    let u = i16_bits(v);
    let b0 = (u % 256) as u8;
    let b1 = (u / 256 % 256) as u8;
    assert(b0 + b1 * 256 == u) by (nonlinear_arith)
        requires 0 <= u < 65536, b0 == u % 256, b1 == u / 256 % 256;
}

/// The data chunk holds four bytes per frame: its left then its right sample.
proof fn lemma_frame_bytes(frames: Seq<Frame>)
    ensures
        frame_bytes(frames).len() == 4 * frames.len(),
        forall|i: int| 0 <= i < frames.len() ==> {
            let b = frame_bytes(frames);
            &&& le_i16(b[4 * i], b[4 * i + 1]) == (#[trigger] frames[i]).left
            &&& le_i16(b[4 * i + 2], b[4 * i + 3]) == frames[i].right
        },
    decreases frames.len(),
{
    if frames.len() > 0 {
        let prev = frames.drop_last();
        lemma_frame_bytes(prev);
        let f = frames.last();
        lemma_sample_bytes(f.left);
        lemma_sample_bytes(f.right);
        let b = frame_bytes(frames);
        let pb = frame_bytes(prev);
        assert forall|i: int| 0 <= i < frames.len() implies {
            &&& le_i16(b[4 * i], b[4 * i + 1]) == (#[trigger] frames[i]).left
            &&& le_i16(b[4 * i + 2], b[4 * i + 3]) == frames[i].right
        } by {
            if i < prev.len() {
                assert(frames[i] == prev[i]);
                assert(b[4 * i] == pb[4 * i] && b[4 * i + 1] == pb[4 * i + 1]);
                assert(b[4 * i + 2] == pb[4 * i + 2] && b[4 * i + 3] == pb[4 * i + 3]);
            } else {
                assert(i == prev.len());
                assert(b[4 * i] == le16_bytes(i16_bits(f.left))[0]);
                assert(b[4 * i + 1] == le16_bytes(i16_bits(f.left))[1]);
                assert(b[4 * i + 2] == le16_bytes(i16_bits(f.right))[0]);
                assert(b[4 * i + 3] == le16_bytes(i16_bits(f.right))[1]);
            }
        }
    }
}

proof fn lemma_head_len(frames: Seq<Frame>, sample_rate: int)
    ensures
        wav_head(frames, sample_rate).len() == 44,
{
    reveal(wav_head);
}

proof fn lemma_head_tags(frames: Seq<Frame>, sample_rate: int)
    ensures
        ({
            let h = wav_head(frames, sample_rate);
            &&& h.subrange(0, 4) == seq![82u8, 73, 70, 70]
            &&& h.subrange(8, 12) == seq![87u8, 65, 86, 69]
            &&& h.subrange(12, 16) == fmt_tag()
            &&& h.subrange(36, 40) == data_tag()
        }),
{
    reveal(wav_head);
    let h = wav_head(frames, sample_rate);
    assert(h.subrange(0, 4) =~= seq![82u8, 73, 70, 70]);
    assert(h.subrange(8, 12) =~= seq![87u8, 65, 86, 69]);
    assert(h.subrange(12, 16) =~= fmt_tag());
    assert(h.subrange(36, 40) =~= data_tag());
}

proof fn lemma_head_fields(frames: Seq<Frame>, sample_rate: u32)
    requires
        36 + frames.len() * 4 <= u32::MAX,
        sample_rate * 4 <= u32::MAX,
    ensures
        ({
            let h = wav_head(frames, sample_rate as int);
            &&& le32_at(h, 4) == 36 + frames.len() * 4
            &&& le32_at(h, 16) == 16
            &&& le16_at(h, 20) == 1
            &&& le16_at(h, 22) == 2
            &&& le32_at(h, 24) == sample_rate
            &&& le32_at(h, 28) == sample_rate * 4
            &&& le16_at(h, 32) == 4
            &&& le16_at(h, 34) == 16
            &&& le32_at(h, 40) == frames.len() * 4
        }),
{
    reveal(wav_head);
    let h = wav_head(frames, sample_rate as int);
    lemma_le32_value((36 + frames.len() * 4) as u32);
    lemma_le32_value(16);
    lemma_le16_value(1);
    lemma_le16_value(2);
    lemma_le32_value(sample_rate);
    lemma_le32_value((sample_rate * 4) as u32);
    lemma_le16_value(4);
    lemma_le16_value(16);
    lemma_le32_value((frames.len() * 4) as u32);
    let rs = 36 + frames.len() as int * 4;
    assert(h[4] == le32_bytes(rs)[0] && h[5] == le32_bytes(rs)[1] && h[6] == le32_bytes(rs)[2] && h[7] == le32_bytes(rs)[3]);
    assert(h[16] == le32_bytes(16)[0] && h[17] == le32_bytes(16)[1] && h[18] == le32_bytes(16)[2] && h[19] == le32_bytes(16)[3]);
    assert(h[20] == le16_bytes(1)[0] && h[21] == le16_bytes(1)[1]);
    assert(h[22] == le16_bytes(2)[0] && h[23] == le16_bytes(2)[1]);
    assert(h[24] == le32_bytes(sample_rate as int)[0] && h[25] == le32_bytes(sample_rate as int)[1]
        && h[26] == le32_bytes(sample_rate as int)[2] && h[27] == le32_bytes(sample_rate as int)[3]);
    let br = sample_rate * 4;
    assert(h[28] == le32_bytes(br)[0] && h[29] == le32_bytes(br)[1] && h[30] == le32_bytes(br)[2] && h[31] == le32_bytes(br)[3]);
    assert(h[32] == le16_bytes(4)[0] && h[33] == le16_bytes(4)[1]);
    assert(h[34] == le16_bytes(16)[0] && h[35] == le16_bytes(16)[1]);
    let ds = frames.len() as int * 4;
    assert(h[40] == le32_bytes(ds)[0] && h[41] == le32_bytes(ds)[1] && h[42] == le32_bytes(ds)[2] && h[43] == le32_bytes(ds)[3]);
}

/// The chunk walk over a written file: the format chunk at 12, the data
/// chunk at 36, then the end.
proof fn lemma_walk_written(d: Seq<u8>, n: int, sample_rate: u32)
    requires
        n >= 0,
        d.len() == 44 + 4 * n,
        n * 4 <= u32::MAX,
        tag_at(d, 12, fmt_tag()),
        tag_at(d, 36, data_tag()),
        le32_at(d, 16) == 16,
        le16_at(d, 20) == 1,
        le16_at(d, 22) == 2,
        le32_at(d, 24) == sample_rate,
        le16_at(d, 34) == 16,
        le32_at(d, 40) == n * 4,
    ensures
        walk_chunks(d, 12, None, None) == Ok::<(Option<(u16, u32, u16)>, Option<(int, int)>), FormatError>(
            (Some((2u16, sample_rate, 16u16)), Some((44int, 4 * n)))),
        walk_reads_ok(d, 12),
{
    assert(!tag_at(d, 36, fmt_tag())) by {
        assert(d.subrange(36, 40)[0] == data_tag()[0]);
    }
    assert(next_chunk(d, 12) == 36);
    assert(next_chunk(d, 36) == 44 + 4 * n);
    let fmt = Some((2u16, sample_rate, 16u16));
    let dc = Some((44int, 4 * n));
    assert(walk_chunks(d, 44 + 4 * n, fmt, dc)
        == Ok::<(Option<(u16, u32, u16)>, Option<(int, int)>), FormatError>((fmt, dc)));
    assert(walk_chunks(d, 36, fmt, None)
        == Ok::<(Option<(u16, u32, u16)>, Option<(int, int)>), FormatError>((fmt, dc)));
    assert(walk_reads_ok(d, 44 + 4 * n));
    assert(walk_reads_ok(d, 36));
}

/// The format fields of a written WAV file agree with one another as the
/// format defines them: the block size is the channel count times the bytes
/// per sample (2 channels of 16 bits: 4 bytes), and the byte rate is the
/// sample rate times the block size, the sample rate being the one written;
/// the RIFF size counts the file after its first 8 bytes, and the data size
/// the bytes after the 44-byte header, one block per frame.
pub proof fn lemma_wav_header_rates(frames: Seq<Frame>, sample_rate: u32)
    requires
        36 + frames.len() * 4 <= u32::MAX,
        sample_rate * 4 <= u32::MAX,
    ensures
        ({
            let w = wav_file(frames, sample_rate as int);
            &&& le16_at(w, 22) == 2
            &&& le16_at(w, 34) == 16
            &&& le32_at(w, 24) == sample_rate
            &&& le16_at(w, 32) == le16_at(w, 22) * (le16_at(w, 34) / 8)
            &&& le32_at(w, 28) == le32_at(w, 24) * le16_at(w, 32)
            &&& le32_at(w, 4) == w.len() - 8
            &&& le32_at(w, 40) == w.len() - 44
            &&& le32_at(w, 40) == le16_at(w, 32) * frames.len()
        }),
{
    let h = wav_head(frames, sample_rate as int);
    let w = wav_file(frames, sample_rate as int);
    lemma_head_len(frames, sample_rate as int);
    lemma_head_fields(frames, sample_rate);
    assert forall|i: int| 0 <= i < 44 implies w[i] == h[i] by {}
    assert(le16_at(w, 22) == le16_at(h, 22));
    assert(le16_at(w, 32) == le16_at(h, 32));
    assert(le16_at(w, 34) == le16_at(h, 34));
    assert(le32_at(w, 24) == le32_at(h, 24));
    assert(le32_at(w, 28) == le32_at(h, 28));
    assert(le32_at(w, 4) == le32_at(h, 4));
    assert(le32_at(w, 40) == le32_at(h, 40));
    lemma_frame_bytes(frames);
}

/// A WAV file written from stereo frames reads back as those frames: its
/// header is read as 2 channels of 16 bits at the written rate, with the
/// data after the 44 header bytes, it can be walked, and the sample data
/// read from it has the frames' left samples on the left and their right
/// samples on the right.
pub proof fn lemma_wav_round_trip(frames: Seq<Frame>, sample_rate: u32, data: SampleData)
    requires
        36 + frames.len() * 4 <= u32::MAX,
        sample_rate * 4 <= u32::MAX,
    ensures
        wav_header_spec(wav_file(frames, sample_rate as int))
            == Ok::<(u16, u32, u16, int, int), FormatError>((2u16, sample_rate, 16u16, 44int, (4 * frames.len()) as int)),
        walk_reads_ok(wav_file(frames, sample_rate as int), 12),
        wav_file(frames, sample_rate as int).len() == 44 + 4 * frames.len(),
        pcm_data(data, pcm_bytes(wav_file(frames, sample_rate as int), 44, (4 * frames.len()) as int), 16, 2) ==> (
            data matches SampleData::Stereo16(l, r)
                && l@ == frames.map_values(|f: Frame| f.left)
                && r@ == frames.map_values(|f: Frame| f.right)
        ),
{
    let n: int = frames.len() as int;
    let h = wav_head(frames, sample_rate as int);
    let fb = frame_bytes(frames);
    let d = wav_file(frames, sample_rate as int);
    lemma_head_len(frames, sample_rate as int);
    lemma_frame_bytes(frames);
    lemma_head_tags(frames, sample_rate as int);
    lemma_head_fields(frames, sample_rate);
    assert(d == h + fb);
    assert(d.len() == 44 + 4 * n);
    assert forall|a: int, b: int| 0 <= a <= b <= 44 implies #[trigger] d.subrange(a, b) == h.subrange(a, b) by {
        assert(d.subrange(a, b) =~= h.subrange(a, b));
    }
    assert forall|k: int| 0 <= k < 44 implies #[trigger] d[k] == h[k] by {}
    assert(tag_at(d, 0, seq![82u8, 73, 70, 70]));
    assert(tag_at(d, 8, seq![87u8, 65, 86, 69]));
    assert(tag_at(d, 12, fmt_tag()));
    assert(tag_at(d, 36, data_tag()));
    assert(le32_at(d, 16) == le32_at(h, 16));
    assert(le16_at(d, 20) == le16_at(h, 20));
    assert(le16_at(d, 22) == le16_at(h, 22));
    assert(le32_at(d, 24) == le32_at(h, 24));
    assert(le16_at(d, 34) == le16_at(h, 34));
    assert(le32_at(d, 40) == le32_at(h, 40));
    lemma_walk_written(d, n, sample_rate);
    let raw = pcm_bytes(d, 44, 4 * n);
    assert(raw =~= fb);
    if pcm_data(data, raw, 16, 2) {
        match data {
            SampleData::Stereo16(l, r) => {
                assert(l@ =~= frames.map_values(|f: Frame| f.left));
                assert(r@ =~= frames.map_values(|f: Frame| f.right));
            },
            _ => {},
        }
    }
}

} // verus!
