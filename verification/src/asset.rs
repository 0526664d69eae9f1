//! Asset identity, media metadata, and the binary row format of the
//! `assets` table.
//!
//! A row is: path hash, mtime, size (`u64` each), path and name strings,
//! media-type tag, optional duration, then an optional video block and an
//! optional audio block, each behind a presence flag. Floating-point
//! quantities are carried as their IEEE-754 bit patterns, which encode to
//! the same eight little-endian bytes as the floats themselves.

use vstd::bytes::*;
use vstd::prelude::*;
use vstd::string::*;
use vstd::utf8::*;

use crate::codec::{is_prefix_of, lemma_reads_extend, lemma_enc_str_len, lemma_sfx_opt_u64, lemma_sfx_str, lemma_sfx_u16, lemma_sfx_u32, lemma_sfx_u64, lemma_sfx_u8, enc_opt_u64, enc_str, rd_opt_u64, rd_str, rd_u16, rd_u32, rd_u64, rd_u8, suffix, Dec, Enc};
use crate::model::{media_type_from_tag, media_type_tag, AssetError, MediaType};

verus! {

broadcast use vstd::seq::group_seq_axioms;

// ---------------------------------------------------------------------------
// Asset identity
// ---------------------------------------------------------------------------

/// Identity of one version of a media file: path hash, modification time
/// (Unix ms), and size in bytes. A modified file is a new asset version.
#[derive(Debug, Clone, Copy, PartialEq, Eq, Structural, Hash)]
pub struct AssetId {
    path_hash: u64,
    mtime_ms: u64,
    size: u64,
}

/// The 24-byte key of an asset: path hash, mtime, size, little-endian.
pub open spec fn spec_key_bytes(id: AssetId) -> Seq<u8> {
    spec_u64_to_le_bytes(id.spec_path_hash()) + spec_u64_to_le_bytes(id.spec_mtime_ms())
        + spec_u64_to_le_bytes(id.spec_size())
}

/// 64-bit rotation to the left by `k` (0 < k < 64).
pub open spec fn rotl(x: u64, k: u64) -> u64 {
    (x << k) | (x >> (64 - k) as u64)
}

/// The cache namespace hash of an asset: the path hash mixed with rotated
/// mtime and size.
pub open spec fn spec_asset_hash(id: AssetId) -> u64 {
    id.spec_path_hash() ^ rotl(id.spec_mtime_ms(), 21) ^ rotl(id.spec_size(), 42)
}

impl AssetId {
    /// Path hash component.
    pub closed spec fn spec_path_hash(self) -> u64 {
        self.path_hash
    }

    /// Modification time component.
    pub closed spec fn spec_mtime_ms(self) -> u64 {
        self.mtime_ms
    }

    /// Size component.
    pub closed spec fn spec_size(self) -> u64 {
        self.size
    }

    /// Builds an id from its three components.
    pub fn from_parts(path_hash: u64, mtime_ms: u64, size: u64) -> (r: AssetId)
        ensures
            r.spec_path_hash() == path_hash,
            r.spec_mtime_ms() == mtime_ms,
            r.spec_size() == size,
    {
        AssetId { path_hash, mtime_ms, size }
    }

    /// Path hash component.
    pub fn path_hash(&self) -> (r: u64)
        ensures
            r == self.spec_path_hash(),
    {
        self.path_hash
    }

    /// Modification time (Unix ms).
    pub fn mtime_ms(&self) -> (r: u64)
        ensures
            r == self.spec_mtime_ms(),
    {
        self.mtime_ms
    }

    /// File size in bytes.
    pub fn size(&self) -> (r: u64)
        ensures
            r == self.spec_size(),
    {
        self.size
    }

    /// The 24-byte key: path hash, mtime, size (all little-endian).
    pub fn key_bytes(&self) -> (r: [u8; 24])
        ensures
            r@ == spec_key_bytes(*self),
    {
        let a = u64_to_le_bytes(self.path_hash);
        let b = u64_to_le_bytes(self.mtime_ms);
        let c = u64_to_le_bytes(self.size);
        let mut key = [0u8; 24];
        let mut i: usize = 0;
        while i < 8
            invariant
                0 <= i <= 8,
                a@.len() == 8,
                b@.len() == 8,
                c@.len() == 8,
                forall|k: int| 0 <= k < i ==> key@[k] == a@[k],
                forall|k: int| 0 <= k < i ==> key@[k + 8] == b@[k],
                forall|k: int| 0 <= k < i ==> key@[k + 16] == c@[k],
            decreases 8 - i,
        {
            key[i] = a[i];
            key[i + 8] = b[i];
            key[i + 16] = c[i];
            i += 1;
        }
        proof {
            lemma_auto_spec_u64_to_from_le_bytes();
            assert(key@ =~= a@ + b@ + c@);
        }
        key
    }

    /// Rebuilds an id from its 24-byte key.
    ///
    /// # Errors
    /// Returns [`AssetError::Db`] unless `bytes` is exactly 24 bytes long.
    pub fn from_key_bytes(bytes: &[u8]) -> (r: Result<AssetId, AssetError>)
        ensures
            bytes@.len() == 24 <==> r is Ok,
            !(r is Ok) ==> r matches Err(AssetError::Db(_)),
            r matches Ok(id) ==> spec_key_bytes(id) == bytes@ && id == spec_id_from_key(bytes@),
    {
        if bytes.len() != 24 {
            return Err(AssetError::db("corrupt row: asset key must be 24 bytes"));
        }
        let a = vstd::slice::slice_subrange(bytes, 0, 8);
        let b = vstd::slice::slice_subrange(bytes, 8, 16);
        let c = vstd::slice::slice_subrange(bytes, 16, 24);
        let id = AssetId {
            path_hash: u64_from_le_bytes(a),
            mtime_ms: u64_from_le_bytes(b),
            size: u64_from_le_bytes(c),
        };
        proof {
            lemma_auto_spec_u64_to_from_le_bytes();
            assert(bytes@ =~= a@ + b@ + c@);
        }
        Ok(id)
    }

    /// The cache namespace hash: mixes path hash, mtime, and size, so a
    /// modified file (new mtime or size) addresses a fresh namespace.
    pub fn hash(&self) -> (r: u64)
        ensures
            r == spec_asset_hash(*self),
    {
        let m = (self.mtime_ms << 21u64) | (self.mtime_ms >> 43u64);
        let s = (self.size << 42u64) | (self.size >> 22u64);
        self.path_hash ^ m ^ s
    }
}

/// The asset id a 24-byte key names.
pub open spec fn spec_id_from_key(b: Seq<u8>) -> AssetId {
    spec_asset_id(
        spec_u64_from_le_bytes(b.subrange(0, 8)),
        spec_u64_from_le_bytes(b.subrange(8, 16)),
        spec_u64_from_le_bytes(b.subrange(16, 24)),
    )
}

/// Reading an asset's key gives the asset back.
pub proof fn lemma_id_from_key_roundtrip(id: AssetId)
    ensures
        spec_id_from_key(spec_key_bytes(id)) == id,
{
    lemma_key_bytes_roundtrip(id);
}

/// Keys are injective: equal keys name the same asset version, and the key
/// decodes back to the id it was built from.
pub proof fn lemma_key_bytes_roundtrip(id: AssetId)
    ensures
        spec_key_bytes(id).len() == 24,
        spec_u64_from_le_bytes(spec_key_bytes(id).subrange(0, 8)) == id.spec_path_hash(),
        spec_u64_from_le_bytes(spec_key_bytes(id).subrange(8, 16)) == id.spec_mtime_ms(),
        spec_u64_from_le_bytes(spec_key_bytes(id).subrange(16, 24)) == id.spec_size(),
{
    lemma_auto_spec_u64_to_from_le_bytes();
    let k = spec_key_bytes(id);
    assert(k.subrange(0, 8) =~= spec_u64_to_le_bytes(id.spec_path_hash()));
    assert(k.subrange(8, 16) =~= spec_u64_to_le_bytes(id.spec_mtime_ms()));
    assert(k.subrange(16, 24) =~= spec_u64_to_le_bytes(id.spec_size()));
}

proof fn lemma_rotl_injective(x: u64, y: u64)
    ensures
        x != y ==> (x << 21u64 | x >> 43u64) != (y << 21u64 | y >> 43u64),
        x != y ==> (x << 42u64 | x >> 22u64) != (y << 42u64 | y >> 22u64),
{
    assert(x != y ==> (x << 21u64 | x >> 43u64) != (y << 21u64 | y >> 43u64)) by (bit_vector);
    assert(x != y ==> (x << 42u64 | x >> 22u64) != (y << 42u64 | y >> 22u64)) by (bit_vector);
}

/// A new version of the same file — same path, different modification time
/// or different size — lands in a different cache namespace.
pub proof fn lemma_new_version_new_namespace(old_id: AssetId, new_id: AssetId)
    requires
        old_id.spec_path_hash() == new_id.spec_path_hash(),
        old_id.spec_mtime_ms() != new_id.spec_mtime_ms() && old_id.spec_size() == new_id.spec_size()
            || old_id.spec_mtime_ms() == new_id.spec_mtime_ms() && old_id.spec_size()
            != new_id.spec_size(),
    ensures
        spec_asset_hash(old_id) != spec_asset_hash(new_id),
{
    let (p, m1, s1, m2, s2) = (
        old_id.spec_path_hash(),
        old_id.spec_mtime_ms(),
        old_id.spec_size(),
        new_id.spec_mtime_ms(),
        new_id.spec_size(),
    );
    lemma_rotl_injective(m1, m2);
    lemma_rotl_injective(s1, s2);
    let (a1, a2) = (rotl(m1, 21), rotl(m2, 21));
    let (b1, b2) = (rotl(s1, 42), rotl(s2, 42));
    assert(a1 == (m1 << 21u64 | m1 >> 43u64));
    assert(a2 == (m2 << 21u64 | m2 >> 43u64));
    assert(b1 == (s1 << 42u64 | s1 >> 22u64));
    assert(b2 == (s2 << 42u64 | s2 >> 22u64));
    assert((a1 != a2 && b1 == b2) ==> (p ^ a1 ^ b1) != (p ^ a2 ^ b2)) by (bit_vector);
    assert((a1 == a2 && b1 != b2) ==> (p ^ a1 ^ b1) != (p ^ a2 ^ b2)) by (bit_vector);
}

// ---------------------------------------------------------------------------
// Media metadata
// ---------------------------------------------------------------------------

/// Video stream metadata.
#[derive(Debug, Clone, PartialEq)]
pub struct VideoInfo {
    /// Width in pixels.
    pub width: u32,
    /// Height in pixels.
    pub height: u32,
    /// Frame rate in frames per second (IEEE-754 bits).
    pub frame_rate: u64,
    /// Codec name.
    pub codec: String,
    /// Pixel format name.
    pub pixel_format: String,
    /// Bit rate in bits per second, if known.
    pub bit_rate: Option<u64>,
    /// Total frame count.
    pub frame_count: u32,
    /// Duration in seconds (IEEE-754 bits).
    pub duration_secs: u64,
}

/// Audio stream metadata.
#[derive(Debug, Clone, PartialEq)]
pub struct AudioInfo {
    /// Sample rate in Hz.
    pub sample_rate: u32,
    /// Number of interleaved channels.
    pub channels: u16,
    /// Bits per sample.
    pub bit_depth: u16,
    /// Codec name.
    pub codec: String,
    /// Bit rate in bits per second, if known.
    pub bit_rate: Option<u64>,
    /// Duration in seconds (IEEE-754 bits).
    pub duration_secs: u64,
}

/// Indexed metadata of one asset.
#[derive(Debug, Clone, PartialEq)]
pub struct MediaInfo {
    /// Asset identity.
    pub id: AssetId,
    /// Source file path.
    pub path: String,
    /// Display name (the path's final component).
    pub name: String,
    /// File size in bytes.
    pub size: u64,
    /// Kind of media.
    pub media_type: MediaType,
    /// Duration in seconds (IEEE-754 bits), when known.
    pub duration_secs: Option<u64>,
    /// Video stream metadata, for video assets.
    pub video: Option<VideoInfo>,
    /// Audio stream metadata, for audio assets.
    pub audio: Option<AudioInfo>,
}

/// Abstract video metadata (strings as character sequences).
pub struct VideoInfoView {
    pub width: u32,
    pub height: u32,
    pub frame_rate: u64,
    pub codec: Seq<char>,
    pub pixel_format: Seq<char>,
    pub bit_rate: Option<u64>,
    pub frame_count: u32,
    pub duration_secs: u64,
}

/// Abstract audio metadata.
pub struct AudioInfoView {
    pub sample_rate: u32,
    pub channels: u16,
    pub bit_depth: u16,
    pub codec: Seq<char>,
    pub bit_rate: Option<u64>,
    pub duration_secs: u64,
}

/// Abstract asset metadata.
pub struct MediaInfoView {
    pub id: AssetId,
    pub path: Seq<char>,
    pub name: Seq<char>,
    pub size: u64,
    pub media_type: MediaType,
    pub duration_secs: Option<u64>,
    pub video: Option<VideoInfoView>,
    pub audio: Option<AudioInfoView>,
}

impl View for VideoInfo {
    type V = VideoInfoView;

    open spec fn view(&self) -> VideoInfoView {
        VideoInfoView {
            width: self.width,
            height: self.height,
            frame_rate: self.frame_rate,
            codec: self.codec@,
            pixel_format: self.pixel_format@,
            bit_rate: self.bit_rate,
            frame_count: self.frame_count,
            duration_secs: self.duration_secs,
        }
    }
}

impl View for AudioInfo {
    type V = AudioInfoView;

    open spec fn view(&self) -> AudioInfoView {
        AudioInfoView {
            sample_rate: self.sample_rate,
            channels: self.channels,
            bit_depth: self.bit_depth,
            codec: self.codec@,
            bit_rate: self.bit_rate,
            duration_secs: self.duration_secs,
        }
    }
}

/// View of an optional video block.
pub open spec fn opt_video_view(v: Option<VideoInfo>) -> Option<VideoInfoView> {
    match v {
        Some(x) => Some(x@),
        None => None,
    }
}

/// View of an optional audio block.
pub open spec fn opt_audio_view(a: Option<AudioInfo>) -> Option<AudioInfoView> {
    match a {
        Some(x) => Some(x@),
        None => None,
    }
}

impl View for MediaInfo {
    type V = MediaInfoView;

    open spec fn view(&self) -> MediaInfoView {
        MediaInfoView {
            id: self.id,
            path: self.path@,
            name: self.name@,
            size: self.size,
            media_type: self.media_type,
            duration_secs: self.duration_secs,
            video: opt_video_view(self.video),
            audio: opt_audio_view(self.audio),
        }
    }
}

/// The final component of a path: the characters after its last `/`.
pub open spec fn file_name_of(p: Seq<char>) -> Seq<char>
    decreases p.len(),
{
    if p.len() == 0 {
        p
    } else if p.last() == '/' {
        Seq::<char>::empty()
    } else {
        file_name_of(p.drop_last()).push(p.last())
    }
}

proof fn lemma_file_name_suffix(p: Seq<char>, i: int)
    requires
        0 <= i <= p.len(),
        i == 0 || p[i - 1] == '/',
        forall|k: int| i <= k < p.len() ==> p[k] != '/',
    ensures
        file_name_of(p) == p.subrange(i, p.len() as int),
    decreases p.len(),
{
    if p.len() == 0 {
    } else if i == p.len() {
        assert(p.subrange(i, p.len() as int) =~= Seq::<char>::empty());
    } else {
        lemma_file_name_suffix(p.drop_last(), i);
        assert(p.subrange(i, p.len() as int) =~= p.drop_last().subrange(i, p.len() - 1).push(
            p.last(),
        ));
    }
}

impl MediaInfo {
    /// Metadata for a freshly probed asset: the name is the path's final
    /// component, the size is the id's, and no stream details are known yet.
    pub fn new(id: AssetId, path: &str, media_type: MediaType) -> (r: MediaInfo)
        ensures
            r.id == id,
            r.path@ == path@,
            r.name@ == file_name_of(path@),
            r.size == id.spec_size(),
            r.media_type == media_type,
            r.duration_secs is None,
            r.video is None,
            r.audio is None,
    {
        let n = path.unicode_len();
        let mut i: usize = n;
        while i > 0 && path.get_char(i - 1) != '/'
            invariant
                0 <= i <= n,
                n == path@.len(),
                forall|k: int| i <= k < n ==> path@[k] != '/',
            decreases i,
        {
            i -= 1;
        }
        proof {
            lemma_file_name_suffix(path@, i as int);
        }
        let name = String::from_str(path.substring_char(i, n));
        MediaInfo {
            id,
            path: String::from_str(path),
            name,
            size: id.size,
            media_type,
            duration_secs: None,
            video: None,
            audio: None,
        }
    }
}

// ---------------------------------------------------------------------------
// Keys
// ---------------------------------------------------------------------------

/// The 24-byte asset table key: path hash, mtime, size (all LE).
pub fn asset_key(id: &AssetId) -> (r: [u8; 24])
    ensures
        r@ == spec_key_bytes(*id),
{
    id.key_bytes()
}

/// The 25-byte cache-entry key: asset key + cache type tag.
pub fn cache_key(id: &AssetId, cache_type: u8) -> (r: [u8; 25])
    ensures
        r@ == spec_key_bytes(*id).push(cache_type),
{
    let k = id.key_bytes();
    let mut key = [0u8; 25];
    let mut i: usize = 0;
    while i < 24
        invariant
            0 <= i <= 24,
            k@ == spec_key_bytes(*id),
            key@[24] == 0,
            forall|j: int| 0 <= j < i ==> key@[j] == k@[j],
        decreases 24 - i,
    {
        key[i] = k[i];
        i += 1;
    }
    key[24] = cache_type;
    proof {
        assert(key@ =~= k@.push(cache_type));
    }
    key
}

// ---------------------------------------------------------------------------
// Row format of the `assets` table
// ---------------------------------------------------------------------------

/// Encoding of a video block.
pub open spec fn enc_video(v: VideoInfoView) -> Seq<u8> {
    spec_u32_to_le_bytes(v.width) + (spec_u32_to_le_bytes(v.height) + (spec_u64_to_le_bytes(
        v.frame_rate,
    ) + (enc_str(v.codec) + (enc_str(v.pixel_format) + (enc_opt_u64(v.bit_rate) + (
    spec_u32_to_le_bytes(v.frame_count) + spec_u64_to_le_bytes(v.duration_secs)))))))
}

/// Encoding of an audio block.
pub open spec fn enc_audio(a: AudioInfoView) -> Seq<u8> {
    spec_u32_to_le_bytes(a.sample_rate) + (spec_u16_to_le_bytes(a.channels) + (
    spec_u16_to_le_bytes(a.bit_depth) + (enc_str(a.codec) + (enc_opt_u64(a.bit_rate)
        + spec_u64_to_le_bytes(a.duration_secs)))))
}

/// Encoding of an optional video block behind a presence flag.
pub open spec fn enc_opt_video(v: Option<VideoInfoView>) -> Seq<u8> {
    match v {
        Some(x) => seq![1u8] + enc_video(x),
        None => seq![0u8],
    }
}

/// Encoding of an optional audio block behind a presence flag.
pub open spec fn enc_opt_audio(a: Option<AudioInfoView>) -> Seq<u8> {
    match a {
        Some(x) => seq![1u8] + enc_audio(x),
        None => seq![0u8],
    }
}

/// The fixed part of an asset row: id components, path, name, media-type
/// tag, optional duration.
pub open spec fn enc_media_head(m: MediaInfoView) -> Seq<u8> {
    spec_u64_to_le_bytes(m.id.spec_path_hash()) + (spec_u64_to_le_bytes(m.id.spec_mtime_ms()) + (
    spec_u64_to_le_bytes(m.id.spec_size()) + (enc_str(m.path) + (enc_str(m.name) + (seq![
        media_type_tag(m.media_type),
    ] + enc_opt_u64(m.duration_secs))))))
}

/// The row of an asset: the fixed part, then the optional video and audio
/// blocks.
pub open spec fn spec_encode_media_info(m: MediaInfoView) -> Seq<u8> {
    enc_media_head(m) + (enc_opt_video(m.video) + enc_opt_audio(m.audio))
}

/// Reads a video block at `p`.
pub open spec fn rd_video(s: Seq<u8>, p: int) -> Option<(VideoInfoView, int)> {
    match rd_u32(s, p) {
        None => None,
        Some((width, p1)) => match rd_u32(s, p1) {
            None => None,
            Some((height, p2)) => match rd_u64(s, p2) {
                None => None,
                Some((frame_rate, p3)) => match rd_str(s, p3) {
                    None => None,
                    Some((codec, p4)) => match rd_str(s, p4) {
                        None => None,
                        Some((pixel_format, p5)) => match rd_opt_u64(s, p5) {
                            None => None,
                            Some((bit_rate, p6)) => match rd_u32(s, p6) {
                                None => None,
                                Some((frame_count, p7)) => match rd_u64(s, p7) {
                                    None => None,
                                    Some((duration_secs, p8)) => Some(
                                        (
                                            VideoInfoView {
                                                width,
                                                height,
                                                frame_rate,
                                                codec,
                                                pixel_format,
                                                bit_rate,
                                                frame_count,
                                                duration_secs,
                                            },
                                            p8,
                                        ),
                                    ),
                                },
                            },
                        },
                    },
                },
            },
        },
    }
}

/// Reads an audio block at `p`.
pub open spec fn rd_audio(s: Seq<u8>, p: int) -> Option<(AudioInfoView, int)> {
    match rd_u32(s, p) {
        None => None,
        Some((sample_rate, p1)) => match rd_u16(s, p1) {
            None => None,
            Some((channels, p2)) => match rd_u16(s, p2) {
                None => None,
                Some((bit_depth, p3)) => match rd_str(s, p3) {
                    None => None,
                    Some((codec, p4)) => match rd_opt_u64(s, p4) {
                        None => None,
                        Some((bit_rate, p5)) => match rd_u64(s, p5) {
                            None => None,
                            Some((duration_secs, p6)) => Some(
                                (
                                    AudioInfoView {
                                        sample_rate,
                                        channels,
                                        bit_depth,
                                        codec,
                                        bit_rate,
                                        duration_secs,
                                    },
                                    p6,
                                ),
                            ),
                        },
                    },
                },
            },
        },
    }
}

/// Reads a flagged optional video block (flag 1 means present).
pub open spec fn rd_opt_video(s: Seq<u8>, p: int) -> Option<(Option<VideoInfoView>, int)> {
    match rd_u8(s, p) {
        None => None,
        Some((f, q)) => if f == 1 {
            match rd_video(s, q) {
                Some((v, r)) => Some((Some(v), r)),
                None => None,
            }
        } else {
            Some((None, q))
        },
    }
}

/// Reads a flagged optional audio block (flag 1 means present).
pub open spec fn rd_opt_audio(s: Seq<u8>, p: int) -> Option<(Option<AudioInfoView>, int)> {
    match rd_u8(s, p) {
        None => None,
        Some((f, q)) => if f == 1 {
            match rd_audio(s, q) {
                Some((a, r)) => Some((Some(a), r)),
                None => None,
            }
        } else {
            Some((None, q))
        },
    }
}

/// The asset id with the given components.
pub closed spec fn spec_asset_id(path_hash: u64, mtime_ms: u64, size: u64) -> AssetId {
    AssetId { path_hash, mtime_ms, size }
}

/// Components of [`spec_asset_id`], and every id is built from its components.
pub proof fn lemma_spec_asset_id(path_hash: u64, mtime_ms: u64, size: u64, id: AssetId)
    ensures
        spec_asset_id(path_hash, mtime_ms, size).spec_path_hash() == path_hash,
        spec_asset_id(path_hash, mtime_ms, size).spec_mtime_ms() == mtime_ms,
        spec_asset_id(path_hash, mtime_ms, size).spec_size() == size,
        spec_asset_id(id.spec_path_hash(), id.spec_mtime_ms(), id.spec_size()) == id,
{
}

/// The metadata a row holds: every field in order, the media-type tag must
/// be known, and no byte may follow the audio block. The size is the id's.
pub open spec fn spec_decode_media_info(s: Seq<u8>) -> Option<MediaInfoView> {
    match rd_u64(s, 0) {
        None => None,
        Some((ph, p1)) => match rd_u64(s, p1) {
            None => None,
            Some((mt, p2)) => match rd_u64(s, p2) {
                None => None,
                Some((size, p3)) => match rd_str(s, p3) {
                    None => None,
                    Some((path, p4)) => match rd_str(s, p4) {
                        None => None,
                        Some((name, p5)) => match rd_u8(s, p5) {
                            None => None,
                            Some((tag, p6)) => match media_type_from_tag(tag) {
                                None => None,
                                Some(media_type) => match rd_opt_u64(s, p6) {
                                    None => None,
                                    Some((duration_secs, p7)) => match rd_opt_video(s, p7) {
                                        None => None,
                                        Some((video, p8)) => match rd_opt_audio(s, p8) {
                                            None => None,
                                            Some((audio, p9)) => if p9 >= s.len() {
                                                Some(
                                                    MediaInfoView {
                                                        id: spec_asset_id(ph, mt, size),
                                                        path,
                                                        name,
                                                        size,
                                                        media_type,
                                                        duration_secs,
                                                        video,
                                                        audio,
                                                    },
                                                )
                                            } else {
                                                None
                                            },
                                        },
                                    },
                                },
                            },
                        },
                    },
                },
            },
        },
    }
}

fn write_video(e: &mut Enc, v: &VideoInfo)
    ensures
        final(e)@ == old(e)@ + enc_video(v@),
{
    e.u32(v.width);
    e.u32(v.height);
    e.f64_bits(v.frame_rate);
    e.str(v.codec.as_str());
    e.str(v.pixel_format.as_str());
    e.opt_u64(v.bit_rate);
    e.u32(v.frame_count);
    e.f64_bits(v.duration_secs);
    proof {
        assert(e@ =~= old(e)@ + enc_video(v@));
    }
}

fn write_audio(e: &mut Enc, a: &AudioInfo)
    ensures
        final(e)@ == old(e)@ + enc_audio(a@),
{
    e.u32(a.sample_rate);
    e.u16(a.channels);
    e.u16(a.bit_depth);
    e.str(a.codec.as_str());
    e.opt_u64(a.bit_rate);
    e.f64_bits(a.duration_secs);
    proof {
        assert(e@ =~= old(e)@ + enc_audio(a@));
    }
}

fn write_head(e: &mut Enc, info: &MediaInfo)
    ensures
        final(e)@ == old(e)@ + enc_media_head(info@),
{
    e.u64(info.id.path_hash());
    e.u64(info.id.mtime_ms());
    e.u64(info.id.size());
    e.str(info.path.as_str());
    e.str(info.name.as_str());
    e.u8(info.media_type.as_u8());
    e.opt_f64(info.duration_secs);
    proof {
        assert(e@ =~= old(e)@ + enc_media_head(info@));
    }
}

/// Serializes a [`MediaInfo`] into the row format.
pub fn encode_media_info(info: &MediaInfo) -> (r: Vec<u8>)
    ensures
        r@ == spec_encode_media_info(info@),
{
    let mut e = Enc::new();
    write_head(&mut e, info);
    let ghost before_video = e@;
    match &info.video {
        Some(v) => {
            e.u8(1);
            write_video(&mut e, v);
        },
        None => {
            e.u8(0);
        },
    }
    proof {
        assert(e@ =~= before_video + enc_opt_video(info@.video));
    }
    let ghost before_audio = e@;
    match &info.audio {
        Some(a) => {
            e.u8(1);
            write_audio(&mut e, a);
        },
        None => {
            e.u8(0);
        },
    }
    proof {
        assert(e@ =~= before_audio + enc_opt_audio(info@.audio));
        assert(before_video == enc_media_head(info@));
        assert(e@ =~= spec_encode_media_info(info@));
    }
    e.finish()
}

fn read_video(d: &mut Dec) -> (r: Result<VideoInfo, AssetError>)
    ensures
        final(d).data() == old(d).data(),
        match rd_video(old(d).data(), old(d).pos()) {
            Some((v, q)) => r matches Ok(x) && x@ == v && final(d).pos() == q,
            None => r matches Err(AssetError::Db(_)),
        },
{
    let width = d.u32()?;
    let height = d.u32()?;
    let frame_rate = d.f64_bits()?;
    let codec = d.str()?;
    let pixel_format = d.str()?;
    let bit_rate = d.opt_u64()?;
    let frame_count = d.u32()?;
    let duration_secs = d.f64_bits()?;
    Ok(VideoInfo { width, height, frame_rate, codec, pixel_format, bit_rate, frame_count, duration_secs })
}

fn read_audio(d: &mut Dec) -> (r: Result<AudioInfo, AssetError>)
    ensures
        final(d).data() == old(d).data(),
        match rd_audio(old(d).data(), old(d).pos()) {
            Some((a, q)) => r matches Ok(x) && x@ == a && final(d).pos() == q,
            None => r matches Err(AssetError::Db(_)),
        },
{
    let sample_rate = d.u32()?;
    let channels = d.u16()?;
    let bit_depth = d.u16()?;
    let codec = d.str()?;
    let bit_rate = d.opt_u64()?;
    let duration_secs = d.f64_bits()?;
    Ok(AudioInfo { sample_rate, channels, bit_depth, codec, bit_rate, duration_secs })
}

/// Deserializes a [`MediaInfo`] from the row format.
///
/// # Errors
/// Returns [`AssetError::Db`] if the row is truncated or corrupt (bad
/// UTF-8, unknown media type, or trailing bytes).
pub fn decode_media_info(data: &[u8]) -> (r: Result<MediaInfo, AssetError>)
    ensures
        match spec_decode_media_info(data@) {
            Some(m) => r matches Ok(x) && x@ == m,
            None => r matches Err(AssetError::Db(_)),
        },
{
    let mut d = Dec::new(data);
    let path_hash = d.u64()?;
    let mtime_ms = d.u64()?;
    let size = d.u64()?;
    let id = AssetId::from_parts(path_hash, mtime_ms, size);
    let path = d.str()?;
    let name = d.str()?;
    let tag = d.u8()?;
    let media_type = match MediaType::from_u8(tag) {
        Some(m) => m,
        None => {
            return Err(AssetError::db("corrupt row: bad media type"));
        },
    };
    let duration_secs = d.opt_f64()?;
    let video = if d.u8()? == 1 {
        Some(read_video(&mut d)?)
    } else {
        None
    };
    let audio = if d.u8()? == 1 {
        Some(read_audio(&mut d)?)
    } else {
        None
    };
    if !d.is_empty() {
        return Err(AssetError::db("corrupt row: trailing bytes"));
    }
    proof {
        lemma_spec_asset_id(path_hash, mtime_ms, size, id);
        assert(id == spec_asset_id(path_hash, mtime_ms, size));
    }
    Ok(MediaInfo { id, path, name, size, media_type, duration_secs, video, audio })
}

// ---------------------------------------------------------------------------
// Law: decoding a row gives back the metadata it was encoded from
// ---------------------------------------------------------------------------

/// Every string of the metadata fits the 32-bit length prefix.
pub open spec fn media_strings_fit(m: MediaInfoView) -> bool {
    &&& encode_utf8(m.path).len() <= u32::MAX
    &&& encode_utf8(m.name).len() <= u32::MAX
    &&& (m.video matches Some(v) ==> encode_utf8(v.codec).len() <= u32::MAX && encode_utf8(
        v.pixel_format,
    ).len() <= u32::MAX)
    &&& (m.audio matches Some(a) ==> encode_utf8(a.codec).len() <= u32::MAX)
}

proof fn lemma_sfx_video(s: Seq<u8>, p: int, v: VideoInfoView, t: Seq<u8>)
    requires
        0 <= p <= s.len(),
        encode_utf8(v.codec).len() <= u32::MAX,
        encode_utf8(v.pixel_format).len() <= u32::MAX,
        suffix(s, p) == enc_video(v) + t,
    ensures
        rd_video(s, p) == Some((v, p + enc_video(v).len())),
        suffix(s, p + enc_video(v).len()) == t,
{
    lemma_auto_spec_u32_to_from_le_bytes();
    lemma_auto_spec_u64_to_from_le_bytes();
    lemma_enc_str_len(v.codec);
    lemma_enc_str_len(v.pixel_format);
    let e1 = spec_u32_to_le_bytes(v.width);
    let e2 = spec_u32_to_le_bytes(v.height);
    let e3 = spec_u64_to_le_bytes(v.frame_rate);
    let e4 = enc_str(v.codec);
    let e5 = enc_str(v.pixel_format);
    let e6 = enc_opt_u64(v.bit_rate);
    let e7 = spec_u32_to_le_bytes(v.frame_count);
    let e8 = spec_u64_to_le_bytes(v.duration_secs);
    assert(suffix(s, p) =~= e1 + (e2 + (e3 + (e4 + (e5 + (e6 + (e7 + (e8 + t))))))));
    lemma_sfx_u32(s, p, v.width, e2 + (e3 + (e4 + (e5 + (e6 + (e7 + (e8 + t)))))));
    let p1 = p + 4;
    lemma_sfx_u32(s, p1, v.height, e3 + (e4 + (e5 + (e6 + (e7 + (e8 + t))))));
    let p2 = p1 + 4;
    lemma_sfx_u64(s, p2, v.frame_rate, e4 + (e5 + (e6 + (e7 + (e8 + t)))));
    let p3 = p2 + 8;
    lemma_sfx_str(s, p3, v.codec, e5 + (e6 + (e7 + (e8 + t))));
    let p4 = p3 + e4.len();
    lemma_sfx_str(s, p4, v.pixel_format, e6 + (e7 + (e8 + t)));
    let p5: int = p4 + e5.len();
    lemma_sfx_opt_u64(s, p5, v.bit_rate, e7 + (e8 + t));
    let p6 = p5 + e6.len();
    lemma_sfx_u32(s, p6, v.frame_count, e8 + t);
    let p7 = p6 + 4;
    lemma_sfx_u64(s, p7, v.duration_secs, t);
    assert(enc_video(v).len() == e1.len() + e2.len() + e3.len() + e4.len() + e5.len() + e6.len()
        + e7.len() + e8.len());
}

proof fn lemma_sfx_audio(s: Seq<u8>, p: int, a: AudioInfoView, t: Seq<u8>)
    requires
        0 <= p <= s.len(),
        encode_utf8(a.codec).len() <= u32::MAX,
        suffix(s, p) == enc_audio(a) + t,
    ensures
        rd_audio(s, p) == Some((a, p + enc_audio(a).len())),
        suffix(s, p + enc_audio(a).len()) == t,
{
    lemma_auto_spec_u16_to_from_le_bytes();
    lemma_auto_spec_u32_to_from_le_bytes();
    lemma_auto_spec_u64_to_from_le_bytes();
    lemma_enc_str_len(a.codec);
    let e1 = spec_u32_to_le_bytes(a.sample_rate);
    let e2 = spec_u16_to_le_bytes(a.channels);
    let e3 = spec_u16_to_le_bytes(a.bit_depth);
    let e4 = enc_str(a.codec);
    let e5 = enc_opt_u64(a.bit_rate);
    let e6 = spec_u64_to_le_bytes(a.duration_secs);
    assert(suffix(s, p) =~= e1 + (e2 + (e3 + (e4 + (e5 + (e6 + t))))));
    lemma_sfx_u32(s, p, a.sample_rate, e2 + (e3 + (e4 + (e5 + (e6 + t)))));
    let p1 = p + 4;
    lemma_sfx_u16(s, p1, a.channels, e3 + (e4 + (e5 + (e6 + t))));
    let p2 = p1 + 2;
    lemma_sfx_u16(s, p2, a.bit_depth, e4 + (e5 + (e6 + t)));
    let p3 = p2 + 2;
    lemma_sfx_str(s, p3, a.codec, e5 + (e6 + t));
    let p4 = p3 + e4.len();
    lemma_sfx_opt_u64(s, p4, a.bit_rate, e6 + t);
    let p5: int = p4 + e5.len();
    lemma_sfx_u64(s, p5, a.duration_secs, t);
    assert(enc_audio(a).len() == e1.len() + e2.len() + e3.len() + e4.len() + e5.len() + e6.len());
}

proof fn lemma_sfx_opt_video(s: Seq<u8>, p: int, v: Option<VideoInfoView>, t: Seq<u8>)
    requires
        0 <= p <= s.len(),
        v matches Some(x) ==> encode_utf8(x.codec).len() <= u32::MAX && encode_utf8(
            x.pixel_format,
        ).len() <= u32::MAX,
        suffix(s, p) == enc_opt_video(v) + t,
    ensures
        rd_opt_video(s, p) == Some((v, p + enc_opt_video(v).len())),
        suffix(s, p + enc_opt_video(v).len()) == t,
{
    match v {
        Some(x) => {
            assert(suffix(s, p) =~= seq![1u8] + (enc_video(x) + t));
            lemma_sfx_u8(s, p, 1, enc_video(x) + t);
            lemma_sfx_video(s, p + 1, x, t);
        },
        None => {
            assert(suffix(s, p) =~= seq![0u8] + t);
            lemma_sfx_u8(s, p, 0, t);
        },
    }
}

proof fn lemma_sfx_opt_audio(s: Seq<u8>, p: int, a: Option<AudioInfoView>, t: Seq<u8>)
    requires
        0 <= p <= s.len(),
        a matches Some(x) ==> encode_utf8(x.codec).len() <= u32::MAX,
        suffix(s, p) == enc_opt_audio(a) + t,
    ensures
        rd_opt_audio(s, p) == Some((a, p + enc_opt_audio(a).len())),
        suffix(s, p + enc_opt_audio(a).len()) == t,
{
    match a {
        Some(x) => {
            assert(suffix(s, p) =~= seq![1u8] + (enc_audio(x) + t));
            lemma_sfx_u8(s, p, 1, enc_audio(x) + t);
            lemma_sfx_audio(s, p + 1, x, t);
        },
        None => {
            assert(suffix(s, p) =~= seq![0u8] + t);
            lemma_sfx_u8(s, p, 0, t);
        },
    }
}

/// Block reads that succeed on a prefix stay inside it and read the same on
/// the whole row.
proof fn lemma_block_reads_extend(t: Seq<u8>, s: Seq<u8>)
    requires
        is_prefix_of(t, s),
    ensures
        forall|p: int|
            #[trigger] rd_opt_video(t, p) is Some ==> rd_opt_video(t, p).unwrap().1 <= t.len() && rd_opt_video(s, p)
                == rd_opt_video(t, p),
        forall|p: int|
            #[trigger] rd_opt_audio(t, p) is Some ==> rd_opt_audio(t, p).unwrap().1 <= t.len() && rd_opt_audio(s, p)
                == rd_opt_audio(t, p),
{
    lemma_reads_extend(t, s);
    assert forall|p: int| #[trigger] rd_video(t, p) is Some implies rd_video(t, p).unwrap().1 <= t.len()
        && rd_video(s, p) == rd_video(t, p) by {
        let (w, p1) = rd_u32(t, p).unwrap();
        let (h, p2) = rd_u32(t, p1).unwrap();
        let (fr, p3) = rd_u64(t, p2).unwrap();
        let (c, p4) = rd_str(t, p3).unwrap();
        let (pf, p5) = rd_str(t, p4).unwrap();
        let (br, p6) = rd_opt_u64(t, p5).unwrap();
        let (fc, p7) = rd_u32(t, p6).unwrap();
        assert(rd_u64(t, p7) is Some);
    }
    assert forall|p: int| #[trigger] rd_audio(t, p) is Some implies rd_audio(t, p).unwrap().1 <= t.len()
        && rd_audio(s, p) == rd_audio(t, p) by {
        let (sr, p1) = rd_u32(t, p).unwrap();
        let (ch, p2) = rd_u16(t, p1).unwrap();
        let (bd, p3) = rd_u16(t, p2).unwrap();
        let (c, p4) = rd_str(t, p3).unwrap();
        let (br, p5) = rd_opt_u64(t, p4).unwrap();
        assert(rd_u64(t, p5) is Some);
    }
    assert forall|p: int| #[trigger] rd_opt_video(t, p) is Some implies rd_opt_video(t, p).unwrap().1 <= t.len()
        && rd_opt_video(s, p) == rd_opt_video(t, p) by {
        assert(rd_u8(t, p) is Some);
        if rd_u8(t, p).unwrap().0 == 1 {
            assert(rd_video(t, p + 1) is Some);
        }
    }
    assert forall|p: int| #[trigger] rd_opt_audio(t, p) is Some implies rd_opt_audio(t, p).unwrap().1 <= t.len()
        && rd_opt_audio(s, p) == rd_opt_audio(t, p) by {
        assert(rd_u8(t, p) is Some);
        if rd_u8(t, p).unwrap().0 == 1 {
            assert(rd_audio(t, p + 1) is Some);
        }
    }
}

/// Of two rows one of which is a proper prefix of the other, at most one
/// decodes: a row is read to its last byte and no further.
proof fn lemma_decode_prefix_free(t: Seq<u8>, s: Seq<u8>)
    requires
        is_prefix_of(t, s),
        t.len() < s.len(),
    ensures
        !(spec_decode_media_info(t) is Some && spec_decode_media_info(s) is Some),
{
    if spec_decode_media_info(t) is Some {
        lemma_reads_extend(t, s);
        lemma_block_reads_extend(t, s);
        let (ph, p1) = rd_u64(t, 0).unwrap();
        let (mt, p2) = rd_u64(t, p1).unwrap();
        let (size, p3) = rd_u64(t, p2).unwrap();
        let (path, p4) = rd_str(t, p3).unwrap();
        let (name, p5) = rd_str(t, p4).unwrap();
        let (tag, p6) = rd_u8(t, p5).unwrap();
        let (d, p7) = rd_opt_u64(t, p6).unwrap();
        let (v, p8) = rd_opt_video(t, p7).unwrap();
        let (a, p9) = rd_opt_audio(t, p8).unwrap();
        assert(p9 <= t.len());
        assert(rd_opt_audio(s, p8) == Some((a, p9)));
    }
}

/// Where the media-type tag of an asset's row lies.
pub open spec fn media_tag_offset(m: MediaInfoView) -> int {
    24int + enc_str(m.path).len() + enc_str(m.name).len()
}

/// A damaged asset row is refused, never misread: every proper prefix of
/// a row, a row with bytes after it, and a row whose media-type tag is
/// unknown decode to nothing.
pub proof fn lemma_corrupt_rows_rejected(m: MediaInfoView, k: int, extra: Seq<u8>, tag: u8)
    requires
        media_strings_fit(m),
        0 <= k < spec_encode_media_info(m).len(),
        extra.len() > 0,
        media_type_from_tag(tag) is None,
    ensures
        spec_decode_media_info(spec_encode_media_info(m).subrange(0, k)) is None,
        spec_decode_media_info(spec_encode_media_info(m) + extra) is None,
        spec_decode_media_info(spec_encode_media_info(m).update(media_tag_offset(m), tag)) is None,
{
    let s = spec_encode_media_info(m);
    lemma_media_info_roundtrip(m);
    let t = s.subrange(0, k);
    assert(is_prefix_of(t, s)) by {
        assert(t =~= s.subrange(0, t.len() as int));
    }
    lemma_decode_prefix_free(t, s);
    let u = s + extra;
    assert(is_prefix_of(s, u)) by {
        assert(s =~= u.subrange(0, s.len() as int));
    }
    lemma_decode_prefix_free(s, u);
    lemma_bad_tag_rejected(m, tag);
}

/// A row whose media-type tag is unknown decodes to nothing.
#[verifier::rlimit(50)]
proof fn lemma_bad_tag_rejected(m: MediaInfoView, tag: u8)
    requires
        media_strings_fit(m),
        media_type_from_tag(tag) is None,
    ensures
        spec_decode_media_info(spec_encode_media_info(m).update(media_tag_offset(m), tag)) is None,
{
    let s = spec_encode_media_info(m);
    lemma_auto_spec_u64_to_from_le_bytes();
    lemma_enc_str_len(m.path);
    lemma_enc_str_len(m.name);
    let w = s.update(media_tag_offset(m), tag);
    let e1 = spec_u64_to_le_bytes(m.id.spec_path_hash());
    let e2 = spec_u64_to_le_bytes(m.id.spec_mtime_ms());
    let e3 = spec_u64_to_le_bytes(m.id.spec_size());
    let e4 = enc_str(m.path);
    let e5 = enc_str(m.name);
    let rest = enc_opt_u64(m.duration_secs) + (enc_opt_video(m.video) + enc_opt_audio(m.audio));
    assert(s =~= e1 + (e2 + (e3 + (e4 + (e5 + (seq![media_type_tag(m.media_type)] + rest))))));
    assert(suffix(w, 0) =~= e1 + (e2 + (e3 + (e4 + (e5 + (seq![tag] + rest))))));
    lemma_sfx_u64(w, 0, m.id.spec_path_hash(), e2 + (e3 + (e4 + (e5 + (seq![tag] + rest)))));
    lemma_sfx_u64(w, 8, m.id.spec_mtime_ms(), e3 + (e4 + (e5 + (seq![tag] + rest))));
    lemma_sfx_u64(w, 16, m.id.spec_size(), e4 + (e5 + (seq![tag] + rest)));
    lemma_sfx_str(w, 24, m.path, e5 + (seq![tag] + rest));
    lemma_sfx_str(w, 24int + e4.len(), m.name, seq![tag] + rest);
    lemma_sfx_u8(w, media_tag_offset(m), tag, rest);
}

/// Decoding the row of an asset gives back its metadata, with the size
/// taken from the asset id (the row stores the size once, in the id).
#[verifier::rlimit(40)]
pub proof fn lemma_media_info_roundtrip(m: MediaInfoView)
    requires
        media_strings_fit(m),
    ensures
        spec_decode_media_info(spec_encode_media_info(m)) == Some(
            MediaInfoView {
                id: m.id,
                path: m.path,
                name: m.name,
                size: m.id.spec_size(),
                media_type: m.media_type,
                duration_secs: m.duration_secs,
                video: m.video,
                audio: m.audio,
            },
        ),
{
    lemma_auto_spec_u64_to_from_le_bytes();
    lemma_enc_str_len(m.path);
    lemma_enc_str_len(m.name);
    let s = spec_encode_media_info(m);
    let e1 = spec_u64_to_le_bytes(m.id.spec_path_hash());
    let e2 = spec_u64_to_le_bytes(m.id.spec_mtime_ms());
    let e3 = spec_u64_to_le_bytes(m.id.spec_size());
    let e4 = enc_str(m.path);
    let e5 = enc_str(m.name);
    let e6 = seq![media_type_tag(m.media_type)];
    let e7 = enc_opt_u64(m.duration_secs);
    let e8 = enc_opt_video(m.video);
    let e9 = enc_opt_audio(m.audio);
    let empty = Seq::<u8>::empty();
    assert(suffix(s, 0) =~= e1 + (e2 + (e3 + (e4 + (e5 + (e6 + (e7 + (e8 + (e9 + empty)))))))));
    lemma_sfx_u64(s, 0, m.id.spec_path_hash(), e2 + (e3 + (e4 + (e5 + (e6 + (e7 + (e8 + (e9 + empty))))))));
    lemma_sfx_u64(s, 8, m.id.spec_mtime_ms(), e3 + (e4 + (e5 + (e6 + (e7 + (e8 + (e9 + empty)))))));
    lemma_sfx_u64(s, 16, m.id.spec_size(), e4 + (e5 + (e6 + (e7 + (e8 + (e9 + empty))))));
    lemma_sfx_str(s, 24, m.path, e5 + (e6 + (e7 + (e8 + (e9 + empty)))));
    let p4: int = 24int + e4.len();
    lemma_sfx_str(s, p4, m.name, e6 + (e7 + (e8 + (e9 + empty))));
    let p5: int = p4 + e5.len();
    assert(e6 + (e7 + (e8 + (e9 + empty))) =~= seq![media_type_tag(m.media_type)] + (e7 + (e8 + (e9 + empty))));
    lemma_sfx_u8(s, p5, media_type_tag(m.media_type), e7 + (e8 + (e9 + empty)));
    let p6: int = p5 + 1;
    lemma_sfx_opt_u64(s, p6, m.duration_secs, e8 + (e9 + empty));
    let p7: int = p6 + e7.len();
    lemma_sfx_opt_video(s, p7, m.video, e9 + empty);
    let p8: int = p7 + e8.len();
    lemma_sfx_opt_audio(s, p8, m.audio, empty);
    let p9: int = p8 + e9.len();
    assert(s.len() == e1.len() + e2.len() + e3.len() + e4.len() + e5.len() + e6.len() + e7.len()
        + e8.len() + e9.len());
    assert(p9 == s.len());
    lemma_spec_asset_id(0, 0, 0, m.id);
}

} // verus!
