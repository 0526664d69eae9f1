//! Proxy video encoder front end: validates the profile, picks the target
//! resolution and frame rate, aspect-fits every incoming frame into the
//! target, and keeps the proxy stream's header and frame count.

use vstd::prelude::*;

use crate::container::{spec_header_bytes, split_sample, Header, Plane, Writer, BIT_DEPTH};
use crate::imaging::{resize_rgba, rgba_fits, rgba_len, triangle_resize};
use crate::model::AssetError;
use crate::profile::{at_least_1, spec_profile_valid, spec_target_size, ProxyProfile};
use crate::video::RgbaFrame;

verus! {

/// Frame sink that resizes incoming frames to the target resolution and
/// hands them to the proxy stream.
#[derive(Debug)]
pub struct VideoEncoderSink {
    inner: Writer,
}

/// The frame rate a proxy is written at: the profile's, or else the
/// source's effective rate.
pub open spec fn spec_proxy_rate(profile: ProxyProfile, effective_frame_rate: u64) -> u64 {
    match profile.frame_rate {
        Some(fps) => fps,
        None => effective_frame_rate,
    }
}

/// The target size a profile gives a source.
pub open spec fn spec_sink_target(profile: ProxyProfile, source_width: u32, source_height: u32) -> (
    nat,
    nat,
) {
    spec_target_size(
        at_least_1(profile.resolution.0),
        at_least_1(profile.resolution.1),
        at_least_1(source_width),
        at_least_1(source_height),
    )
}

impl VideoEncoderSink {
    /// The stream header the sink writes to.
    pub closed spec fn spec_header(&self) -> Header {
        self.inner.spec_header()
    }

    /// Frames encoded so far.
    pub closed spec fn spec_frame_count(&self) -> u32 {
        self.inner.spec_frame_count()
    }

    /// Opens an encoder for a source of the given resolution.
    ///
    /// # Errors
    /// Returns [`AssetError::Validation`] for a bad profile, or a target
    /// size that does not fit the proxy stream.
    pub fn open(
        profile: &ProxyProfile,
        source_width: u32,
        source_height: u32,
        effective_frame_rate: u64,
    ) -> (r: Result<VideoEncoderSink, AssetError>)
        ensures
            r is Ok <==> spec_profile_valid(*profile) && spec_sink_target(
                *profile,
                source_width,
                source_height,
            ).0 <= 0xFFFF && spec_sink_target(*profile, source_width, source_height).1 <= 0xFFFF,
            r matches Ok(s) ==> s.spec_header().width == spec_sink_target(
                *profile,
                source_width,
                source_height,
            ).0 && s.spec_header().height == spec_sink_target(*profile, source_width, source_height).1
                && s.spec_header().fps == spec_proxy_rate(*profile, effective_frame_rate)
                && s.spec_header().frame_count == 0 && s.spec_frame_count() == 0,
            r matches Err(e) ==> e is Validation,
    {
        profile.validate()?;
        let target = profile.target_size(source_width, source_height);
        let frame_rate = match profile.frame_rate {
            Some(fps) => fps,
            None => effective_frame_rate,
        };
        let inner = Writer::create(target.0, target.1, frame_rate)?;
        Ok(VideoEncoderSink { inner })
    }

    /// The resolution frames are encoded at.
    pub fn target(&self) -> (r: (u32, u32))
        ensures
            r == (self.spec_header().width, self.spec_header().height),
    {
        self.inner.size()
    }

    /// Frames encoded so far.
    pub fn frame_count(&self) -> (r: u32)
        ensures
            r == self.spec_frame_count(),
    {
        self.inner.frame_count()
    }

    /// The placeholder header to write when the output is created.
    pub fn header_bytes(&self) -> (r: [u8; 32])
        ensures
            r@ == spec_header_bytes(self.spec_header()),
    {
        self.inner.header_bytes()
    }

    /// Resizes `frame` (RGBA8) to the target, counts it, and returns the
    /// planes to encode.
    ///
    /// # Errors
    /// Returns [`AssetError::Codec`] for a frame whose data is shorter than
    /// its size; nothing is counted then.
    pub fn write_resized(&mut self, frame: &RgbaFrame) -> (r: Result<Vec<Plane>, AssetError>)
        requires
            old(self).spec_frame_count() < u32::MAX,
            frame.width as int * old(self).spec_header().height as int * 16 <= isize::MAX,
            old(self).spec_header().width as int * old(self).spec_header().height as int * 16
                <= isize::MAX,
        ensures
            final(self).spec_header() == old(self).spec_header(),
            r is Ok <==> rgba_fits(frame.width, frame.height, frame.data@.len()),
            r is Ok ==> final(self).spec_frame_count() == old(self).spec_frame_count() + 1,
            r is Err ==> final(self).spec_frame_count() == old(self).spec_frame_count(),
            r matches Err(e) ==> e is Codec,
            r matches Ok(planes) ==> planes@.len() == 3 && forall|c: int|
                0 <= c < 3 ==> {
                    let resized = triangle_resize(
                        frame.data@,
                        frame.width,
                        frame.height,
                        old(self).spec_header().width,
                        old(self).spec_header().height,
                    );
                    &&& (#[trigger] planes@[c]).width == old(self).spec_header().width
                    &&& planes@[c].height == old(self).spec_header().height
                    &&& planes@[c].bit_depth == BIT_DEPTH
                    &&& planes@[c].data@.len() == resized.len() / 4
                    &&& forall|i: int|
                        0 <= i < resized.len() / 4 ==> #[trigger] planes@[c].data@[i]
                            == split_sample(resized, c, i)
                },
    {
        let (tw, th) = self.inner.size();
        let resized = resize_rgba(frame.data.as_slice(), frame.width, frame.height, tw, th)?;
        proof {
            assert(resized@.len() == rgba_len(tw, th));
        }
        match self.inner.write_frame(resized.as_slice()) {
            Ok(planes) => Ok(planes),
            Err(_) => Err(AssetError::codec("resized frame has the wrong size")),
        }
    }

    /// The header to write back over the placeholder when the output is
    /// finished (the frame count patched in).
    pub fn finish(self) -> (r: [u8; 32])
        ensures
            r@ == spec_header_bytes(
                Header { frame_count: self.spec_frame_count(), ..self.spec_header() },
            ),
    {
        self.inner.finish()
    }
}

/// How many of the write results are successes.
pub open spec fn ok_count(oks: Seq<bool>) -> nat
    decreases oks.len(),
{
    if oks.len() == 0 {
        0
    } else {
        ok_count(oks.drop_last()) + if oks.last() {
            1nat
        } else {
            0nat
        }
    }
}

/// The frame count counts the successful writes: for a sink as `open`
/// returns it (`sinks[0]`) and the sink after each of a sequence of
/// `write_resized` calls (`sinks[i + 1]` after call `i`, which returned
/// `Ok` exactly when `oks[i]`), each step as `write_resized` ensures, the
/// last sink's count is the number of `Ok` results, and it is the count
/// `finish` writes into the header.
pub proof fn lemma_frame_count_counts_writes(sinks: Seq<VideoEncoderSink>, oks: Seq<bool>)
    requires
        sinks.len() == oks.len() + 1,
        sinks[0].spec_frame_count() == 0,
        forall|i: int|
            0 <= i < oks.len() ==> #[trigger] sinks[i + 1].spec_frame_count() == if oks[i] {
                sinks[i].spec_frame_count() + 1
            } else {
                sinks[i].spec_frame_count() as int
            },
    ensures
        sinks.last().spec_frame_count() == ok_count(oks),
    decreases oks.len(),
{
    if oks.len() > 0 {
        let n = oks.len() - 1;
        assert(sinks[n + 1].spec_frame_count() == if oks[n] {
            sinks[n].spec_frame_count() + 1
        } else {
            sinks[n].spec_frame_count() as int
        });
        assert forall|i: int| 0 <= i < oks.drop_last().len() implies #[trigger] sinks.drop_last()[i + 1].spec_frame_count()
            == if oks.drop_last()[i] {
            sinks.drop_last()[i].spec_frame_count() + 1
        } else {
            sinks.drop_last()[i].spec_frame_count() as int
        } by {
            assert(sinks[i + 1].spec_frame_count() == if oks[i] {
                sinks[i].spec_frame_count() + 1
            } else {
                sinks[i].spec_frame_count() as int
            });
        }
        lemma_frame_count_counts_writes(sinks.drop_last(), oks.drop_last());
    }
}

} // verus!
