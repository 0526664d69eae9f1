//! Streaming 16-bit PCM WAV writer state, for audio proxies: the
//! placeholder header written first, the sample bytes appended, and the
//! header patched with the sizes once finished.

use vstd::bytes::*;
use vstd::prelude::*;

use crate::wav::{header_fits, riff_id, spec_wav_header, wav_header};

verus! {

broadcast use vstd::seq::group_seq_axioms;

/// Sample-rate/channel spec for opening a [`WavWriter`].
#[derive(Debug, Clone, Copy, PartialEq, Eq, Structural)]
pub struct WavSpec {
    /// Sample rate in Hz.
    pub sample_rate: u32,
    /// Number of interleaved channels.
    pub channels: u16,
}

/// The header a new file starts with: the canonical header with both size
/// fields zero (patched by [`WavWriter::finish`]).
pub open spec fn spec_placeholder_header(sample_rate: u32, channels: u16) -> Seq<u8> {
    riff_id() + seq![0u8, 0u8, 0u8, 0u8] + spec_wav_header(sample_rate, channels, 0).subrange(8, 44)
}

/// The little-endian bytes of 16-bit samples.
pub open spec fn spec_sample_bytes(samples: Seq<i16>) -> Seq<u8>
    decreases samples.len(),
{
    if samples.len() == 0 {
        Seq::empty()
    } else {
        spec_sample_bytes(samples.drop_last()) + spec_u16_to_le_bytes(samples.last() as u16)
    }
}

/// The format fields of a spec fit the header.
pub open spec fn spec_fits(spec: WavSpec) -> bool {
    header_fits(spec.sample_rate, spec.channels, 0)
}

/// Streaming 16-bit PCM WAV writer state.
#[derive(Debug)]
pub struct WavWriter {
    spec: WavSpec,
    bytes_written: u32,
}

impl WavWriter {
    /// The format being written.
    pub closed spec fn spec_spec(&self) -> WavSpec {
        self.spec
    }

    /// Sample bytes written so far.
    pub closed spec fn spec_bytes_written(&self) -> u32 {
        self.bytes_written
    }

    /// Starts a file of the given format.
    pub fn new(spec: WavSpec) -> (r: WavWriter)
        requires
            spec_fits(spec),
        ensures
            r.spec_spec() == spec,
            r.spec_bytes_written() == 0,
    {
        WavWriter { spec, bytes_written: 0 }
    }

    /// The 44-byte placeholder header to write first.
    pub fn placeholder_header(&self) -> (r: Vec<u8>)
        requires
            spec_fits(self.spec_spec()),
        ensures
            r@ == spec_placeholder_header(self.spec_spec().sample_rate, self.spec_spec().channels),
    {
        let mut h = wav_header(self.spec.sample_rate, self.spec.channels, 0);
        h.set(4, 0);
        h.set(5, 0);
        h.set(6, 0);
        h.set(7, 0);
        proof {
            assert(spec_wav_header(self.spec.sample_rate, self.spec.channels, 0).subrange(0, 4)
                =~= riff_id());
            assert(h@ =~= spec_placeholder_header(self.spec.sample_rate, self.spec.channels));
        }
        h
    }

    /// Sample bytes written so far.
    pub fn bytes_written(&self) -> (r: u32)
        ensures
            r == self.spec_bytes_written(),
    {
        self.bytes_written
    }

    /// Encodes interleaved 16-bit samples as the bytes to append, and
    /// counts them.
    pub fn write_samples(&mut self, samples: &[i16]) -> (r: Vec<u8>)
        requires
            old(self).spec_bytes_written() + 2 * samples@.len() <= u32::MAX,
        ensures
            r@ == spec_sample_bytes(samples@),
            final(self).spec_spec() == old(self).spec_spec(),
            final(self).spec_bytes_written() == old(self).spec_bytes_written() + 2 * samples@.len(),
    {
        let mut out: Vec<u8> = Vec::new();
        let mut i: usize = 0;
        while i < samples.len()
            invariant
                i <= samples@.len(),
                out@ == spec_sample_bytes(samples@.take(i as int)),
                out@.len() == 2 * i,
            decreases samples@.len() - i,
        {
            let mut b = u16_to_le_bytes(samples[i] as u16);
            out.append(&mut b);
            proof {
                assert(samples@.take((i + 1) as int).drop_last() =~= samples@.take(i as int));
            }
            i += 1;
        }
        proof {
            assert(samples@.take(samples@.len() as int) =~= samples@);
        }
        self.bytes_written = self.bytes_written + (2 * samples.len()) as u32;
        out
    }

    /// The header to write back over the placeholder: the canonical
    /// header for the bytes written.
    pub fn finish(&self) -> (r: Vec<u8>)
        requires
            header_fits(
                self.spec_spec().sample_rate,
                self.spec_spec().channels,
                self.spec_bytes_written(),
            ),
        ensures
            r@ == spec_wav_header(
                self.spec_spec().sample_rate,
                self.spec_spec().channels,
                self.spec_bytes_written(),
            ),
    {
        wav_header(self.spec.sample_rate, self.spec.channels, self.bytes_written)
    }
}

} // verus!
