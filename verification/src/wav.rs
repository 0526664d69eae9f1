//! RIFF/WAVE layout: parsing the chunk structure of a PCM WAV file and
//! building the canonical 44-byte header the encoders write.
//!
//! The parser walks the chunks after the 12-byte `RIFF…WAVE` preamble:
//! each chunk is a 4-byte id, a `u32` size, the body, and one pad byte when
//! the size is odd. The last `fmt ` and `data` chunks win; a `data` chunk
//! that claims more bytes than the file holds is clamped to the file.

use vstd::bytes::*;
use vstd::prelude::*;

use crate::text::{dec_digits, fmt_dec};

verus! {

broadcast use vstd::seq::group_seq_axioms;

/// Integer PCM format tag.
pub const FORMAT_PCM: u16 = 1;

/// IEEE float format tag.
pub const FORMAT_FLOAT: u16 = 3;

/// Sample-rate/channel spec for opening an encoder.
#[derive(Debug, Clone, Copy, PartialEq, Eq, Structural)]
pub struct AudioSpec {
    /// Sample rate in Hz.
    pub sample_rate: u32,
    /// Number of interleaved channels.
    pub channels: u16,
}

/// Decode/encode failures.
#[derive(Debug)]
pub enum Error {
    /// Underlying I/O failure (a truncated file reads as an unexpected end
    /// of file).
    Io(std::io::Error),
    /// The file is not a supported audio container.
    Format(String),
}

/// The standard library's I/O error.
#[verifier::external_type_specification]
#[verifier::external_body]
pub struct ExIoError(std::io::Error);

/// Builds `std::io::Error::from(ErrorKind::UnexpectedEof)`, the error a
/// read of a truncated file reports.
#[verifier::external_body]
fn unexpected_eof() -> std::io::Error {
    std::io::Error::from(std::io::ErrorKind::UnexpectedEof)
}

/// The `fmt ` chunk fields the decoder uses.
#[derive(Debug, Clone, Copy, PartialEq, Eq, Structural)]
pub struct FmtChunk {
    /// Format tag (1 = PCM, 3 = float).
    pub format: u16,
    /// Interleaved channels.
    pub channels: u16,
    /// Sample rate in Hz.
    pub sample_rate: u32,
    /// Bits per sample.
    pub bits: u16,
}

/// The validated layout of a WAV file.
#[derive(Debug, Clone, Copy, PartialEq, Eq, Structural)]
pub struct WavLayout {
    /// The format chunk.
    pub fmt: FmtChunk,
    /// Offset of the first sample byte.
    pub data_start: u64,
    /// Number of sample bytes (clamped to the file).
    pub data_len: u32,
    /// Bytes per sample (`bits / 8`).
    pub bytes_per_sample: u16,
    /// Bytes per interleaved frame.
    pub block_align: u32,
    /// Bytes per second.
    pub byte_rate: u64,
}

/// How a parse fails.
pub enum WavFailure {
    /// The file ends inside the preamble or inside a `fmt ` chunk.
    Truncated,
    /// A structural or format problem.
    Format,
}

/// Id of the `fmt ` chunk.
pub open spec fn fmt_id() -> Seq<u8> {
    seq![0x66u8, 0x6du8, 0x74u8, 0x20u8]
}

/// Id of the `data` chunk.
pub open spec fn data_id() -> Seq<u8> {
    seq![0x64u8, 0x61u8, 0x74u8, 0x61u8]
}

/// `"RIFF"`.
pub open spec fn riff_id() -> Seq<u8> {
    seq![0x52u8, 0x49u8, 0x46u8, 0x46u8]
}

/// `"WAVE"`.
pub open spec fn wave_id() -> Seq<u8> {
    seq![0x57u8, 0x41u8, 0x56u8, 0x45u8]
}

/// Little-endian `u16` at `p`.
pub open spec fn le16(s: Seq<u8>, p: int) -> u16 {
    spec_u16_from_le_bytes(s.subrange(p, p + 2))
}

/// Little-endian `u32` at `p`.
pub open spec fn le32(s: Seq<u8>, p: int) -> u32 {
    spec_u32_from_le_bytes(s.subrange(p, p + 4))
}

/// The format fields of a `fmt ` body starting at `p`.
pub open spec fn spec_fmt_at(s: Seq<u8>, p: int) -> FmtChunk {
    FmtChunk {
        format: le16(s, p),
        channels: le16(s, p + 2),
        sample_rate: le32(s, p + 4),
        bits: le16(s, p + 14),
    }
}

/// Where the chunk starting at `pos` (whose body has `size` bytes) ends,
/// including the pad byte of an odd size.
pub open spec fn next_chunk(pos: int, size: int) -> int {
    pos + 8 + size + (if size % 2 == 1 { 1int } else { 0int })
}

/// Walks the chunks from `pos`, carrying the last `fmt ` and `data` chunks
/// seen. The walk ends when fewer than 8 bytes (a chunk header) remain.
pub open spec fn spec_walk(
    s: Seq<u8>,
    pos: int,
    fmt: Option<FmtChunk>,
    data: Option<(u64, u32)>,
) -> Result<(Option<FmtChunk>, Option<(u64, u32)>), WavFailure>
    decreases (if pos <= s.len() { s.len() - pos } else { 0 }),
{
    if pos < 0 || pos + 8 > s.len() {
        Ok((fmt, data))
    } else {
        let id = s.subrange(pos, pos + 4);
        let size = le32(s, pos + 4) as int;
        let body = pos + 8;
        if id == fmt_id() {
            if body + size > s.len() {
                Err(WavFailure::Truncated)
            } else if size < 16 {
                Err(WavFailure::Format)
            } else {
                spec_walk(s, next_chunk(pos, size), Some(spec_fmt_at(s, body)), data)
            }
        } else if id == data_id() {
            let end = if body + size <= s.len() {
                body + size
            } else {
                s.len() as int
            };
            spec_walk(s, next_chunk(pos, size), fmt, Some((body as u64, (end - body) as u32)))
        } else {
            spec_walk(s, next_chunk(pos, size), fmt, data)
        }
    }
}

/// A supported sample format: 8-bit unsigned PCM, 16/24/32-bit integer
/// PCM, or 32-bit float, with at least one channel.
pub open spec fn supported_fmt(f: FmtChunk) -> bool {
    &&& f.channels != 0
    &&& f.bits % 8 == 0 && 8 <= f.bits <= 32
    &&& (f.format == FORMAT_PCM || (f.bits == 32 && f.format == FORMAT_FLOAT))
}

/// The layout of a WAV file, or how it fails.
pub open spec fn spec_parse_wav(s: Seq<u8>) -> Result<WavLayout, WavFailure> {
    if s.len() < 12 {
        Err(WavFailure::Truncated)
    } else if s.subrange(0, 4) != riff_id() || s.subrange(8, 12) != wave_id() {
        Err(WavFailure::Format)
    } else {
        match spec_walk(s, 12, None, None) {
            Err(e) => Err(e),
            Ok((None, _)) => Err(WavFailure::Format),
            Ok((Some(_), None)) => Err(WavFailure::Format),
            Ok((Some(f), Some((start, len)))) => if !supported_fmt(f) {
                Err(WavFailure::Format)
            } else {
                Ok(
                    WavLayout {
                        fmt: f,
                        data_start: start,
                        data_len: len,
                        bytes_per_sample: (f.bits / 8) as u16,
                        block_align: ((f.bits / 8) * f.channels) as u32,
                        byte_rate: (f.sample_rate * ((f.bits / 8) * f.channels)) as u64,
                    },
                )
            },
        }
    }
}

fn read_le16(data: &[u8], p: usize) -> (r: u16)
    requires
        p + 2 <= data@.len(),
    ensures
        r == le16(data@, p as int),
{
    let _n = data.len();
    u16_from_le_bytes(vstd::slice::slice_subrange(data, p, p + 2))
}

fn read_le32(data: &[u8], p: usize) -> (r: u32)
    requires
        p + 4 <= data@.len(),
    ensures
        r == le32(data@, p as int),
{
    let _n = data.len();
    u32_from_le_bytes(vstd::slice::slice_subrange(data, p, p + 4))
}

fn id_is(data: &[u8], p: usize, a: u8, b: u8, c: u8, d: u8) -> (r: bool)
    requires
        p + 4 <= data@.len(),
    ensures
        r == (data@.subrange(p as int, p + 4) == seq![a, b, c, d]),
{
    let r = data[p] == a && data[p + 1] == b && data[p + 2] == c && data[p + 3] == d;
    proof {
        if r {
            assert(data@.subrange(p as int, p + 4) =~= seq![a, b, c, d]);
        } else {
            if data@.subrange(p as int, p + 4) == seq![a, b, c, d] {
                assert(data@.subrange(p as int, p + 4)[0] == a);
                assert(data@.subrange(p as int, p + 4)[1] == b);
                assert(data@.subrange(p as int, p + 4)[2] == c);
                assert(data@.subrange(p as int, p + 4)[3] == d);
            }
        }
    }
    r
}

/// Parses the RIFF/WAVE structure of a whole file.
///
/// # Errors
/// Returns [`Error::Io`] when the file ends inside the 12-byte preamble or
/// inside a `fmt ` chunk, and [`Error::Format`] for a missing `RIFF`/`WAVE`
/// tag, a `fmt ` chunk under 16 bytes, a missing `fmt ` or `data` chunk,
/// zero channels, or an unsupported bit depth or format tag.
pub fn parse_wav(data: &[u8]) -> (r: Result<WavLayout, Error>)
    requires
        data@.len() < 0x8000_0000_0000_0000,
    ensures
        match spec_parse_wav(data@) {
            Ok(l) => r matches Ok(x) && x == l,
            Err(WavFailure::Truncated) => r matches Err(Error::Io(_)),
            Err(WavFailure::Format) => r matches Err(Error::Format(_)),
        },
        r matches Ok(x) ==> x.byte_rate <= 0xFFFF_FFFF * (4 * 65535),
{
    let len = data.len();
    if len < 12 {
        return Err(Error::Io(unexpected_eof()));
    }
    if !id_is(data, 0, 0x52, 0x49, 0x46, 0x46) || !id_is(data, 8, 0x57, 0x41, 0x56, 0x45) {
        return Err(Error::Format(String::from_str("missing RIFF/WAVE header")));
    }
    let mut fmt: Option<FmtChunk> = None;
    let mut chunk: Option<(u64, u32)> = None;
    let mut pos: u64 = 12;
    let ghost result = spec_walk(data@, 12, None, None);
    while pos <= len as u64 && len as u64 - pos >= 8
        invariant
            len == data@.len(),
            len >= 12,
            data@.subrange(0, 4) == riff_id(),
            data@.subrange(8, 12) == wave_id(),
            len < 0x8000_0000_0000_0000,
            pos <= len + 0x1_0000_0002,
            spec_walk(data@, pos as int, fmt, chunk) == result,
            result == spec_walk(data@, 12, None, None),
        decreases (if pos <= len as u64 { len as u64 + 1 - pos } else { 0 }),
    {
        let p = pos as usize;
        let size = read_le32(data, p + 4);
        let body = pos + 8;
        let next = body + size as u64 + (size % 2) as u64;
        proof {
            assert(next == next_chunk(pos as int, size as int));
        }
        if id_is(data, p, 0x66, 0x6d, 0x74, 0x20) {
            if (len as u64) - body < size as u64 {
                proof {
                    assert(spec_walk(data@, pos as int, fmt, chunk) matches Err(WavFailure::Truncated));
                    assert(data@.subrange(0, 4) == riff_id());
                    assert(data@.subrange(8, 12) == wave_id());
                    assert(spec_parse_wav(data@) matches Err(WavFailure::Truncated));
                }
                return Err(Error::Io(unexpected_eof()));
            }
            if size < 16 {
                return Err(Error::Format(String::from_str("fmt chunk too small")));
            }
            let b = body as usize;
            let f = FmtChunk {
                format: read_le16(data, b),
                channels: read_le16(data, b + 2),
                sample_rate: read_le32(data, b + 4),
                bits: read_le16(data, b + 14),
            };
            fmt = Some(f);
        } else if id_is(data, p, 0x64, 0x61, 0x74, 0x61) {
            let end = if (len as u64) - body >= size as u64 {
                body + size as u64
            } else {
                len as u64
            };
            chunk = Some((body, (end - body) as u32));
        }
        pos = next;
    }
    let f = match fmt {
        Some(f) => f,
        None => {
            return Err(Error::Format(String::from_str("missing fmt chunk")));
        },
    };
    let (data_start, data_len) = match chunk {
        Some(c) => c,
        None => {
            return Err(Error::Format(String::from_str("missing data chunk")));
        },
    };
    if f.channels == 0 {
        return Err(Error::Format(String::from_str("zero channels")));
    }
    if f.bits % 8 != 0 || f.bits < 8 || f.bits > 32 {
        return Err(Error::Format(String::from_str("unsupported bit depth")));
    }
    if f.bits == 8 && f.format != FORMAT_PCM {
        return Err(Error::Format(String::from_str("8-bit must be unsigned PCM")));
    }
    if !(f.bits == 32 && f.format == FORMAT_FLOAT) && f.format != FORMAT_PCM {
        return Err(Error::Format(String::from_str("unsupported format tag")));
    }
    let bytes_per_sample = f.bits / 8;
    proof {
        assert(bytes_per_sample as u32 * f.channels as u32 <= 4 * 65535) by (nonlinear_arith)
            requires
                bytes_per_sample <= 4,
                f.channels <= 65535,
        ;
    }
    let block_align = bytes_per_sample as u32 * f.channels as u32;
    proof {
        assert(f.sample_rate as u64 * block_align as u64 <= 0xFFFF_FFFF * (4 * 65535)) by (nonlinear_arith)
            requires
                block_align <= 4 * 65535,
                f.sample_rate <= 0xFFFF_FFFF,
        ;
    }
    let byte_rate = f.sample_rate as u64 * block_align as u64;
    proof {
        assert(block_align == ((f.bits / 8) * f.channels) as u32) by (nonlinear_arith)
            requires
                f.bits <= 32,
                bytes_per_sample == f.bits / 8,
                block_align == bytes_per_sample as u32 * f.channels as u32,
        ;
        assert(byte_rate == (f.sample_rate * ((f.bits / 8) * f.channels)) as u64) by (nonlinear_arith)
            requires
                f.bits <= 32,
                byte_rate == f.sample_rate as u64 * block_align as u64,
                block_align == (f.bits / 8) * f.channels,
        ;
    }
    Ok(
        WavLayout {
            fmt: f,
            data_start,
            data_len,
            bytes_per_sample,
            block_align,
            byte_rate,
        },
    )
}

// ---------------------------------------------------------------------------
// Canonical header
// ---------------------------------------------------------------------------

/// The canonical 44-byte header of a 16-bit PCM WAV file holding
/// `data_len` sample bytes.
pub open spec fn spec_wav_header(sample_rate: u32, channels: u16, data_len: u32) -> Seq<u8> {
    riff_id() + spec_u32_to_le_bytes((36 + data_len) as u32) + wave_id() + fmt_id()
        + spec_u32_to_le_bytes(16) + spec_u16_to_le_bytes(FORMAT_PCM) + spec_u16_to_le_bytes(
        channels,
    ) + spec_u32_to_le_bytes(sample_rate) + spec_u32_to_le_bytes(
        (sample_rate * (channels * 2)) as u32,
    ) + spec_u16_to_le_bytes((channels * 2) as u16) + spec_u16_to_le_bytes(16) + data_id()
        + spec_u32_to_le_bytes(data_len)
}

/// The header fits its fields: the frame size, byte rate, and RIFF size do
/// not overflow.
pub open spec fn header_fits(sample_rate: u32, channels: u16, data_len: u32) -> bool {
    &&& channels * 2 <= u16::MAX
    &&& sample_rate * (channels * 2) <= u32::MAX
    &&& 36 + data_len <= u32::MAX
}

fn push_all(out: &mut Vec<u8>, bytes: Vec<u8>)
    ensures
        final(out)@ == old(out)@ + bytes@,
{
    let mut bytes = bytes;
    out.append(&mut bytes);
}

fn push4(out: &mut Vec<u8>, a: u8, b: u8, c: u8, d: u8)
    ensures
        final(out)@ == old(out)@ + seq![a, b, c, d],
{
    out.push(a);
    out.push(b);
    out.push(c);
    out.push(d);
    proof {
        assert(out@ =~= old(out)@ + seq![a, b, c, d]);
    }
}

/// Builds the canonical 44-byte header of a 16-bit PCM WAV file with
/// `data_len` sample bytes (the form the encoders leave once finished).
pub fn wav_header(sample_rate: u32, channels: u16, data_len: u32) -> (r: Vec<u8>)
    requires
        header_fits(sample_rate, channels, data_len),
    ensures
        r@ == spec_wav_header(sample_rate, channels, data_len),
        r@.len() == 44,
{
    let block_align = channels * 2;
    let byte_rate = sample_rate * block_align as u32;
    let mut out: Vec<u8> = Vec::new();
    push4(&mut out, 0x52, 0x49, 0x46, 0x46);
    push_all(&mut out, u32_to_le_bytes(36 + data_len));
    push4(&mut out, 0x57, 0x41, 0x56, 0x45);
    push4(&mut out, 0x66, 0x6d, 0x74, 0x20);
    push_all(&mut out, u32_to_le_bytes(16));
    push_all(&mut out, u16_to_le_bytes(FORMAT_PCM));
    push_all(&mut out, u16_to_le_bytes(channels));
    push_all(&mut out, u32_to_le_bytes(sample_rate));
    push_all(&mut out, u32_to_le_bytes(byte_rate));
    push_all(&mut out, u16_to_le_bytes(block_align));
    push_all(&mut out, u16_to_le_bytes(16));
    push4(&mut out, 0x64, 0x61, 0x74, 0x61);
    push_all(&mut out, u32_to_le_bytes(data_len));
    proof {
        assert(out@ =~= spec_wav_header(sample_rate, channels, data_len));
    }
    out
}

/// A file made of the canonical header and `data_len` sample bytes parses
/// back to 16-bit PCM with the same rate and channel count, its samples
/// starting right after the header: what the encoders write, the decoder
/// reads.
pub proof fn lemma_wav_header_roundtrip(sample_rate: u32, channels: u16, samples: Seq<u8>)
    requires
        samples.len() <= u32::MAX,
        header_fits(sample_rate, channels, samples.len() as u32),
        channels != 0,
    ensures
        spec_parse_wav(spec_wav_header(sample_rate, channels, samples.len() as u32) + samples) == Ok::<
            WavLayout,
            WavFailure,
        >(
            WavLayout {
                fmt: FmtChunk { format: FORMAT_PCM, channels, sample_rate, bits: 16 },
                data_start: 44,
                data_len: samples.len() as u32,
                bytes_per_sample: 2,
                block_align: (channels * 2) as u32,
                byte_rate: (sample_rate * (channels * 2)) as u64,
            },
        ),
{
    lemma_auto_spec_u16_to_from_le_bytes();
    lemma_auto_spec_u32_to_from_le_bytes();
    let n = samples.len() as u32;
    let h = spec_wav_header(sample_rate, channels, n);
    let s = h + samples;
    assert(h.len() == 44);
    assert(s.subrange(0, 4) =~= riff_id());
    assert(s.subrange(8, 12) =~= wave_id());
    assert(s.subrange(12, 16) =~= fmt_id());
    assert(s.subrange(16, 20) =~= spec_u32_to_le_bytes(16));
    assert(le32(s, 16) == 16);
    assert(s.subrange(20, 22) =~= spec_u16_to_le_bytes(FORMAT_PCM));
    assert(s.subrange(22, 24) =~= spec_u16_to_le_bytes(channels));
    assert(s.subrange(24, 28) =~= spec_u32_to_le_bytes(sample_rate));
    assert(s.subrange(34, 36) =~= spec_u16_to_le_bytes(16));
    let f = FmtChunk { format: FORMAT_PCM, channels, sample_rate, bits: 16 };
    assert(spec_fmt_at(s, 20) == f);
    assert(s.subrange(36, 40) =~= data_id());
    assert(s.subrange(40, 44) =~= spec_u32_to_le_bytes(n));
    assert(le32(s, 40) == n);
    let end = next_chunk(36, n as int);
    assert(spec_walk(s, end, Some(f), Some((44u64, n))) == Ok::<(Option<FmtChunk>, Option<(u64, u32)>), WavFailure>((Some(f), Some((44u64, n)))));
    assert(spec_walk(s, 36, Some(f), None) == spec_walk(s, end, Some(f), Some((44u64, n))));
    assert(spec_walk(s, 12, None, None) == spec_walk(s, 36, Some(f), None));
    assert(supported_fmt(f));
    assert(f.bits / 8 == 2);
    assert((f.bits / 8) * f.channels == channels * 2) by (nonlinear_arith)
        requires
            f.bits / 8 == 2,
            f.channels == channels,
    ;
    assert(f.sample_rate * ((f.bits / 8) * f.channels) == sample_rate * (channels * 2));
}

/// The header fields a reader finds in a canonical header: the RIFF size
/// counts the 36 header bytes after it and the samples, the format is
/// 16-bit PCM, the frame (block align) is two bytes per channel, the byte
/// rate is the sample rate times the frame size, and the data chunk holds
/// `data_len` bytes.
pub proof fn lemma_wav_header_fields(sample_rate: u32, channels: u16, data_len: u32)
    requires
        header_fits(sample_rate, channels, data_len),
    ensures
        ({
            let h = spec_wav_header(sample_rate, channels, data_len);
            &&& h.len() == 44
            &&& le32(h, 4) == 36 + data_len
            &&& le16(h, 20) == 1
            &&& le16(h, 22) == channels
            &&& le32(h, 24) == sample_rate
            &&& le16(h, 32) == 2 * channels
            &&& le32(h, 28) == sample_rate * le16(h, 32)
            &&& le16(h, 34) == 16
            &&& le32(h, 40) == data_len
        }),
{
    lemma_auto_spec_u16_to_from_le_bytes();
    lemma_auto_spec_u32_to_from_le_bytes();
    let h = spec_wav_header(sample_rate, channels, data_len);
    assert(h.subrange(4, 8) =~= spec_u32_to_le_bytes((36 + data_len) as u32));
    assert(h.subrange(20, 22) =~= spec_u16_to_le_bytes(FORMAT_PCM));
    assert(h.subrange(22, 24) =~= spec_u16_to_le_bytes(channels));
    assert(h.subrange(24, 28) =~= spec_u32_to_le_bytes(sample_rate));
    assert(h.subrange(28, 32) =~= spec_u32_to_le_bytes((sample_rate * (channels * 2)) as u32));
    assert(h.subrange(32, 34) =~= spec_u16_to_le_bytes((channels * 2) as u16));
    assert(h.subrange(34, 36) =~= spec_u16_to_le_bytes(16));
    assert(h.subrange(40, 44) =~= spec_u32_to_le_bytes(data_len));
}

/// A canonical WAV file: `RIFF`/`WAVE`, a 16-byte `fmt ` chunk with the
/// given format tag, channel count, rate and bit depth (frame size and byte
/// rate filled in from them), then a `data` chunk holding `samples`.
pub open spec fn canonical_wav(format: u16, channels: u16, rate: u32, bits: u16, samples: Seq<u8>) -> Seq<u8> {
    let frame = (bits / 8) * channels;
    riff_id() + spec_u32_to_le_bytes((36 + samples.len()) as u32) + wave_id() + fmt_id()
        + spec_u32_to_le_bytes(16) + spec_u16_to_le_bytes(format) + spec_u16_to_le_bytes(channels)
        + spec_u32_to_le_bytes(rate) + spec_u32_to_le_bytes((rate * frame) as u32)
        + spec_u16_to_le_bytes(frame as u16) + spec_u16_to_le_bytes(bits) + data_id()
        + spec_u32_to_le_bytes(samples.len() as u32) + samples
}

/// Every integer PCM depth of 8, 16, 24 or 32 bits, and 32-bit float, is
/// read: a canonical file of any channel count and rate parses to its
/// format, with `bits / 8` bytes per sample, a frame of that many bytes per
/// channel, a byte rate of rate times frame, and the samples right after
/// the 44-byte header.
pub proof fn lemma_canonical_wav_parses(format: u16, channels: u16, rate: u32, bits: u16, samples: Seq<u8>)
    requires
        channels != 0,
        samples.len() + 36 <= u32::MAX,
        (format == 1 && (bits == 8 || bits == 16 || bits == 24 || bits == 32)) || (format == 3 && bits
            == 32),
    ensures
        spec_parse_wav(canonical_wav(format, channels, rate, bits, samples)) == Ok::<WavLayout, WavFailure>(
            WavLayout {
                fmt: FmtChunk { format, channels, sample_rate: rate, bits },
                data_start: 44,
                data_len: samples.len() as u32,
                bytes_per_sample: (bits / 8) as u16,
                block_align: ((bits / 8) * channels) as u32,
                byte_rate: (rate * ((bits / 8) * channels)) as u64,
            },
        ),
{
    lemma_auto_spec_u16_to_from_le_bytes();
    lemma_auto_spec_u32_to_from_le_bytes();
    let n = samples.len() as u32;
    let s = canonical_wav(format, channels, rate, bits, samples);
    let frame = (bits / 8) * channels;
    assert(s.subrange(0, 4) =~= riff_id());
    assert(s.subrange(8, 12) =~= wave_id());
    assert(s.subrange(12, 16) =~= fmt_id());
    assert(s.subrange(16, 20) =~= spec_u32_to_le_bytes(16));
    assert(le32(s, 16) == 16);
    assert(s.subrange(20, 22) =~= spec_u16_to_le_bytes(format));
    assert(s.subrange(22, 24) =~= spec_u16_to_le_bytes(channels));
    assert(s.subrange(24, 28) =~= spec_u32_to_le_bytes(rate));
    assert(s.subrange(34, 36) =~= spec_u16_to_le_bytes(bits));
    let f = FmtChunk { format, channels, sample_rate: rate, bits };
    assert(spec_fmt_at(s, 20) == f);
    assert(s.subrange(36, 40) =~= data_id());
    assert(s.subrange(40, 44) =~= spec_u32_to_le_bytes(n));
    assert(le32(s, 40) == n);
    let end = next_chunk(36, n as int);
    assert(spec_walk(s, end, Some(f), Some((44u64, n))) == Ok::<(Option<FmtChunk>, Option<(u64, u32)>), WavFailure>((Some(f), Some((44u64, n)))));
    assert(spec_walk(s, 36, Some(f), None) == spec_walk(s, end, Some(f), Some((44u64, n))));
    assert(spec_walk(s, 12, None, None) == spec_walk(s, 36, Some(f), None));
    assert(supported_fmt(f));
}

/// The codec name of a WAV stream: `pcm_f32le` for float samples, else
/// `pcm_s` and the bit depth and `le` (`pcm_s16le`).
pub open spec fn spec_wav_codec_name(format: u16, bits: u16) -> Seq<char> {
    if format == FORMAT_FLOAT {
        "pcm_f32le"@
    } else {
        "pcm_s"@ + dec_digits(bits as nat) + "le"@
    }
}

/// The codec name and the bit rate (bits per second) a parsed WAV stream
/// reports.
pub fn audio_stream_tags(layout: &WavLayout) -> (r: (String, u64))
    requires
        layout.byte_rate <= u64::MAX / 8,
    ensures
        r.0@ == spec_wav_codec_name(layout.fmt.format, layout.fmt.bits),
        r.1 == layout.byte_rate * 8,
{
    let codec = if layout.fmt.format == FORMAT_FLOAT {
        String::from_str("pcm_f32le")
    } else {
        let mut name = String::from_str("pcm_s");
        let digits = fmt_dec(layout.fmt.bits as u64);
        name.append(digits.as_str());
        name.append("le");
        name
    };
    (codec, layout.byte_rate * 8)
}

/// The integer value of one little-endian PCM sample of `bytes_per_sample`
/// bytes: unsigned with a 128 offset for 8 bits, two's complement
/// otherwise, a 24-bit sample scaled by 256 to fill 32 bits; 0 for any
/// other width.
pub open spec fn spec_pcm_int(raw: Seq<u8>, bytes_per_sample: int) -> int {
    if bytes_per_sample == 1 {
        raw[0] - 128
    } else if bytes_per_sample == 2 {
        let v = raw[0] + 256 * raw[1];
        if v >= 0x8000 { v - 0x10000 } else { v }
    } else if bytes_per_sample == 3 {
        let v = raw[0] + 256 * raw[1] + 0x10000 * raw[2];
        256 * (if v >= 0x80_0000 { v - 0x100_0000 } else { v })
    } else if bytes_per_sample == 4 {
        let v = raw[0] + 256 * raw[1] + 0x10000 * raw[2] + 0x100_0000 * raw[3];
        if v >= 0x8000_0000 { v - 0x1_0000_0000 } else { v }
    } else {
        0
    }
}

/// Reads the integer value of one PCM sample from the front of `raw`; the
/// caller scales it to `[-1, 1)` (by 128, 32768 or 2^31 for 8, 16, and 24
/// or 32 bits).
pub fn pcm_int_sample(raw: &[u8], bytes_per_sample: usize) -> (r: i32)
    requires
        1 <= bytes_per_sample <= 4 ==> bytes_per_sample <= raw@.len(),
    ensures
        r as int == spec_pcm_int(raw@, bytes_per_sample as int),
{
    if bytes_per_sample == 1 {
        raw[0] as i32 - 128
    } else if bytes_per_sample == 2 {
        let v: i64 = raw[0] as i64 + 256 * raw[1] as i64;
        let s: i64 = if v >= 0x8000 { v - 0x10000 } else { v };
        s as i32
    } else if bytes_per_sample == 3 {
        let v: i64 = raw[0] as i64 + 256 * raw[1] as i64 + 0x10000 * raw[2] as i64;
        let s: i64 = if v >= 0x80_0000 { v - 0x100_0000 } else { v };
        (256 * s) as i32
    } else if bytes_per_sample == 4 {
        let v: i64 = raw[0] as i64 + 256 * raw[1] as i64 + 0x10000 * raw[2] as i64 + 0x100_0000 * raw[3] as i64;
        let s: i64 = if v >= 0x8000_0000 { v - 0x1_0000_0000 } else { v };
        s as i32
    } else {
        0
    }
}

/// How many bytes a read of `out_len` samples takes from the data chunk:
/// as many whole samples as fit both the buffer and what remains.
pub open spec fn spec_read_bytes(out_len: int, bytes_per_sample: int, remaining: int) -> int {
    let want = if out_len * bytes_per_sample <= usize::MAX { out_len * bytes_per_sample } else { usize::MAX as int };
    let capped = if want <= remaining { want } else { remaining };
    capped - capped % (if bytes_per_sample > 0 { bytes_per_sample } else { 1 })
}

/// The number of data bytes the decoder consumes to fill a buffer of
/// `out_len` samples, given `data_len` sample bytes of which `bytes_read`
/// were already consumed.
pub fn read_byte_count(out_len: usize, bytes_per_sample: usize, data_len: u32, bytes_read: u32) -> (r: usize)
    requires
        bytes_read <= data_len,
    ensures
        r == spec_read_bytes(out_len as int, bytes_per_sample as int, (data_len - bytes_read) as int),
        r % (if bytes_per_sample > 0 { bytes_per_sample } else { 1 }) == 0,
{
    let want = if bytes_per_sample != 0 && out_len > usize::MAX / bytes_per_sample {
        proof {
            assert(out_len * bytes_per_sample > usize::MAX) by (nonlinear_arith)
                requires
                    bytes_per_sample > 0,
                    out_len > usize::MAX / bytes_per_sample,
            ;
        }
        usize::MAX
    } else {
        proof {
            assert(out_len * bytes_per_sample <= usize::MAX) by (nonlinear_arith)
                requires
                    bytes_per_sample == 0 || out_len <= usize::MAX / bytes_per_sample,
            ;
        }
        out_len * bytes_per_sample
    };
    let remaining = data_len - bytes_read;
    let capped = if (want as u64) <= (remaining as u64) { want } else { remaining as usize };
    let unit = if bytes_per_sample > 0 { bytes_per_sample } else { 1 };
    proof {
        vstd::arithmetic::div_mod::lemma_mod_bound(capped as int, unit as int);
        vstd::arithmetic::div_mod::lemma_fundamental_div_mod(capped as int, unit as int);
        assert((capped - capped % unit) % (unit as int) == 0) by {
            vstd::arithmetic::div_mod::lemma_mod_multiples_basic(capped as int / unit as int, unit as int);
            vstd::arithmetic::mul::lemma_mul_is_commutative(capped as int / unit as int, unit as int);
        }
    }
    capped - capped % unit
}

} // verus!
