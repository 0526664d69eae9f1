//! Waveform peak records: each chunk of samples is stored as its minimum,
//! maximum and RMS, three little-endian `f32` values in a 12-byte record.

use vstd::bytes::*;
use vstd::prelude::*;

verus! {

broadcast use vstd::seq::group_seq_axioms;

/// Bytes of one stored chunk.
pub const RECORD_LEN: usize = 12;

/// Peak values of one chunk of samples (each `f32` held as its IEEE-754
/// bits).
#[derive(Debug, Clone, Copy, PartialEq, Eq, Structural)]
pub struct WaveformChunk {
    /// Chunk index.
    pub index: usize,
    /// Minimum sample value.
    pub min: u32,
    /// Maximum sample value.
    pub max: u32,
    /// Root-mean-square of the samples.
    pub rms: u32,
}

/// The record a chunk is stored as.
pub open spec fn spec_record(c: WaveformChunk) -> Seq<u8> {
    spec_u32_to_le_bytes(c.min) + spec_u32_to_le_bytes(c.max) + spec_u32_to_le_bytes(c.rms)
}

/// The chunk record `index` holds.
pub open spec fn spec_chunk_of(index: u64, raw: Seq<u8>) -> WaveformChunk {
    WaveformChunk {
        index: index as usize,
        min: spec_u32_from_le_bytes(raw.subrange(0, 4)),
        max: spec_u32_from_le_bytes(raw.subrange(4, 8)),
        rms: spec_u32_from_le_bytes(raw.subrange(8, 12)),
    }
}

/// Decodes the record of chunk `index`.
pub fn decode_record(index: u64, raw: &[u8; 12]) -> (r: WaveformChunk)
    ensures
        r == spec_chunk_of(index, raw@),
{
    let s = raw.as_slice();
    WaveformChunk {
        index: index as usize,
        min: u32_from_le_bytes(vstd::slice::slice_subrange(s, 0, 4)),
        max: u32_from_le_bytes(vstd::slice::slice_subrange(s, 4, 8)),
        rms: u32_from_le_bytes(vstd::slice::slice_subrange(s, 8, 12)),
    }
}

/// Encodes a chunk as its record (the index is implied by the position).
pub fn encode_record(chunk: &WaveformChunk) -> (r: [u8; 12])
    ensures
        r@ == spec_record(*chunk),
{
    let a = u32_to_le_bytes(chunk.min);
    let b = u32_to_le_bytes(chunk.max);
    let c = u32_to_le_bytes(chunk.rms);
    let r: [u8; 12] = [a[0], a[1], a[2], a[3], b[0], b[1], b[2], b[3], c[0], c[1], c[2], c[3]];
    proof {
        assert(r@ =~= spec_record(*chunk));
    }
    r
}

/// Reading back a stored chunk at its own index gives it back.
pub proof fn lemma_record_roundtrip(c: WaveformChunk)
    ensures
        spec_chunk_of(c.index as u64, spec_record(c)) == c,
{
    lemma_auto_spec_u32_to_from_le_bytes();
    let b = spec_record(c);
    assert(b.subrange(0, 4) =~= spec_u32_to_le_bytes(c.min));
    assert(b.subrange(4, 8) =~= spec_u32_to_le_bytes(c.max));
    assert(b.subrange(8, 12) =~= spec_u32_to_le_bytes(c.rms));
}

} // verus!
