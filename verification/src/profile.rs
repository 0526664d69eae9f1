//! Proxy profiles: quality presets describing the target of a proxy render.

use vstd::prelude::*;

use crate::container::valid_rate_bits;
use crate::model::AssetError;

verus! {

/// The video codec video proxies are rendered with today (the only encoder
/// in the kinetix stack).
pub const VIDEO_CODEC: &'static str = "kinetix-lossless";

/// The audio codec audio proxies target (written as PCM WAV until the
/// cadence encoder ships).
pub const AUDIO_CODEC: &'static str = "flac";

/// Proxy generation profile.
#[derive(Debug)]
pub struct ProxyProfile {
    /// Profile name (e.g., "1080p Low", "720p Medium").
    pub name: String,
    /// Target resolution. `(0, 0)` for audio-only profiles.
    pub resolution: (u32, u32),
    /// Target frame rate as IEEE-754 bits (`None` = same as source).
    pub frame_rate: Option<u64>,
    /// Video codec. The only encoder in the kinetix stack today is the
    /// lossless one, so video proxies target it.
    pub video_codec: String,
    /// Video bit rate in bits per second (informational for the lossless
    /// codec, which has no rate control).
    pub video_bit_rate: u64,
    /// Audio codec. FLAC is the intended target; audio proxies are
    /// currently written as PCM WAV.
    pub audio_codec: String,
    /// Audio bit rate in bits per second (0 = lossless).
    pub audio_bit_rate: u64,
}

/// Abstract proxy profile (strings as character sequences).
pub struct ProxyProfileView {
    pub name: Seq<char>,
    pub resolution: (u32, u32),
    pub frame_rate: Option<u64>,
    pub video_codec: Seq<char>,
    pub video_bit_rate: u64,
    pub audio_codec: Seq<char>,
    pub audio_bit_rate: u64,
}

impl View for ProxyProfile {
    type V = ProxyProfileView;

    open spec fn view(&self) -> ProxyProfileView {
        ProxyProfileView {
            name: self.name@,
            resolution: self.resolution,
            frame_rate: self.frame_rate,
            video_codec: self.video_codec@,
            video_bit_rate: self.video_bit_rate,
            audio_codec: self.audio_codec@,
            audio_bit_rate: self.audio_bit_rate,
        }
    }
}

/// The 1080p low-bitrate preset.
pub open spec fn preset_1080p_low() -> ProxyProfileView {
    ProxyProfileView {
        name: "1080p Low"@,
        resolution: (1920u32, 1080u32),
        frame_rate: None,
        video_codec: video_codec_name(),
        video_bit_rate: 2_000_000,
        audio_codec: "aac"@,
        audio_bit_rate: 128_000,
    }
}

/// The 720p medium-bitrate preset.
pub open spec fn preset_720p_medium() -> ProxyProfileView {
    ProxyProfileView {
        name: "720p Medium"@,
        resolution: (1280u32, 720u32),
        frame_rate: None,
        video_codec: video_codec_name(),
        video_bit_rate: 5_000_000,
        audio_codec: "aac"@,
        audio_bit_rate: 192_000,
    }
}

/// The audio-only preset.
pub open spec fn preset_audio_flac() -> ProxyProfileView {
    ProxyProfileView {
        name: "Audio Proxy (FLAC)"@,
        resolution: (0u32, 0u32),
        frame_rate: None,
        video_codec: Seq::empty(),
        video_bit_rate: 0,
        audio_codec: audio_codec_name(),
        audio_bit_rate: 0,
    }
}

impl Clone for ProxyProfile {
    fn clone(&self) -> (r: ProxyProfile)
        ensures
            r == *self,
    {
        ProxyProfile {
            name: self.name.clone(),
            resolution: (self.resolution.0, self.resolution.1),
            frame_rate: self.frame_rate,
            video_codec: self.video_codec.clone(),
            video_bit_rate: self.video_bit_rate,
            audio_codec: self.audio_codec.clone(),
            audio_bit_rate: self.audio_bit_rate,
        }
    }
}

/// True if `p` produces an audio-only proxy.
pub open spec fn spec_is_audio_only(p: ProxyProfile) -> bool {
    p.resolution == (0u32, 0u32) || p.video_codec@.len() == 0
}

/// The text of [`VIDEO_CODEC`].
pub open spec fn video_codec_name() -> Seq<char> {
    seq!['k', 'i', 'n', 'e', 't', 'i', 'x', '-', 'l', 'o', 's', 's', 'l', 'e', 's', 's']
}

/// The text of [`AUDIO_CODEC`].
pub open spec fn audio_codec_name() -> Seq<char> {
    seq!['f', 'l', 'a', 'c']
}

/// When [`ProxyProfile::validate`] accepts a profile: an audio profile
/// names an audio codec; a video profile has a positive resolution, the
/// lossless video codec and a positive bit rate; a frame rate, if given,
/// is positive and finite.
pub open spec fn spec_profile_valid(p: ProxyProfile) -> bool {
    &&& if spec_is_audio_only(p) {
        p.audio_codec@.len() > 0
    } else {
        p.resolution.0 != 0 && p.resolution.1 != 0 && p.video_codec@ == video_codec_name()
            && p.video_bit_rate != 0
    }
    &&& match p.frame_rate {
        Some(bits) => valid_rate_bits(bits),
        None => true,
    }
}

/// `x` rounded down to even, and at least 2.
pub open spec fn even_at_least_2(x: nat) -> nat {
    if x < 2 {
        2
    } else {
        (x - x % 2) as nat
    }
}

/// The aspect-preserving target size of a `src_w × src_h` source inside a
/// `max_w × max_h` box (all at least 1): the source scaled by the smaller
/// of the two axis ratios, never up, each side rounded down to even and at
/// least 2.
pub open spec fn spec_target_size(max_w: nat, max_h: nat, src_w: nat, src_h: nat) -> (nat, nat) {
    let (num, den) = if max_w * src_h <= max_h * src_w {
        (max_w, src_w)
    } else {
        (max_h, src_h)
    };
    if num >= den {
        (even_at_least_2(src_w), even_at_least_2(src_h))
    } else {
        (even_at_least_2(src_w * num / den), even_at_least_2(src_h * num / den))
    }
}

/// `x`, or 1 if it is 0.
pub open spec fn at_least_1(x: u32) -> nat {
    if x == 0 {
        1
    } else {
        x as nat
    }
}

/// `x` rounded down to even, and at least 2.
fn even_floor_2(x: u64) -> (r: u64)
    ensures
        r == even_at_least_2(x as nat),
{
    if x < 2 {
        2
    } else {
        x - x % 2
    }
}

impl ProxyProfile {
    /// Preset: 1080p low-bitrate proxy, the default for smooth playback of
    /// heavy 4K/8K sources.
    pub fn proxy_1080p_low() -> (r: ProxyProfile)
        ensures
            r@ == preset_1080p_low(),
    {
        ProxyProfile {
            name: String::from_str("1080p Low"),
            resolution: (1920, 1080),
            frame_rate: None,
            video_codec: video_codec(),
            video_bit_rate: 2_000_000,
            audio_codec: String::from_str("aac"),
            audio_bit_rate: 128_000,
        }
    }

    /// Preset: 720p medium-bitrate proxy.
    pub fn proxy_720p_medium() -> (r: ProxyProfile)
        ensures
            r@ == preset_720p_medium(),
    {
        ProxyProfile {
            name: String::from_str("720p Medium"),
            resolution: (1280, 720),
            frame_rate: None,
            video_codec: video_codec(),
            video_bit_rate: 5_000_000,
            audio_codec: String::from_str("aac"),
            audio_bit_rate: 192_000,
        }
    }

    /// Preset: audio-only proxy (currently written as PCM WAV).
    pub fn audio_proxy_flac() -> (r: ProxyProfile)
        ensures
            r@ == preset_audio_flac(),
    {
        proof {
            reveal_strlit("flac");
            assert("flac"@ =~= audio_codec_name());
        }
        ProxyProfile {
            name: String::from_str("Audio Proxy (FLAC)"),
            resolution: (0, 0),
            frame_rate: None,
            video_codec: String::new(),
            video_bit_rate: 0,
            audio_codec: String::from_str(AUDIO_CODEC),
            audio_bit_rate: 0,
        }
    }

    /// True if this profile produces an audio-only proxy.
    pub fn is_audio_only(&self) -> (r: bool)
        ensures
            r == spec_is_audio_only(*self),
    {
        (self.resolution.0 == 0 && self.resolution.1 == 0) || self.video_codec.as_str().unicode_len()
            == 0
    }

    /// Canonical output file extension for this profile. Video proxies use
    /// the proxy stream (`.tkvp`); audio proxies use `.wav` until the FLAC
    /// encoder exists.
    pub fn output_extension(&self) -> (r: &'static str)
        ensures
            r@ == (if spec_is_audio_only(*self) {
                "wav"@
            } else {
                "tkvp"@
            }),
    {
        if self.is_audio_only() {
            "wav"
        } else {
            "tkvp"
        }
    }

    /// Aspect-preserving target size for a source resolution: the source
    /// scaled to fit inside `self.resolution`, never upscaled, with even
    /// dimensions of at least 2.
    ///
    /// The scale is the exact ratio, so a side that the box reaches exactly
    /// is kept: a 182×97 source in a 58×1080 box gives 58×30. A computation
    /// in `f64` gets `182 × (58 / 182) = 57.99999999999999` there, and
    /// rounding that down to even gives 56×30.
    pub fn target_size(&self, source_width: u32, source_height: u32) -> (r: (u32, u32))
        ensures
            (r.0 as nat, r.1 as nat) == spec_target_size(
                at_least_1(self.resolution.0),
                at_least_1(self.resolution.1),
                at_least_1(source_width),
                at_least_1(source_height),
            ),
    {
        let max_w: u64 = if self.resolution.0 == 0 {
            1
        } else {
            self.resolution.0 as u64
        };
        let max_h: u64 = if self.resolution.1 == 0 {
            1
        } else {
            self.resolution.1 as u64
        };
        let src_w: u64 = if source_width == 0 {
            1
        } else {
            source_width as u64
        };
        let src_h: u64 = if source_height == 0 {
            1
        } else {
            source_height as u64
        };
        proof {
            assert(max_w * src_h <= 0xFFFF_FFFF * 0xFFFF_FFFF) by (nonlinear_arith)
                requires
                    max_w <= 0xFFFF_FFFF,
                    src_h <= 0xFFFF_FFFF,
            ;
            assert(max_h * src_w <= 0xFFFF_FFFF * 0xFFFF_FFFF) by (nonlinear_arith)
                requires
                    max_h <= 0xFFFF_FFFF,
                    src_w <= 0xFFFF_FFFF,
            ;
        }
        let (num, den) = if max_w * src_h <= max_h * src_w {
            (max_w, src_w)
        } else {
            (max_h, src_h)
        };
        if num >= den {
            let w = even_floor_2(src_w);
            let h = even_floor_2(src_h);
            return (w as u32, h as u32);
        }
        proof {
            assert(src_w * num <= 0xFFFF_FFFF * 0xFFFF_FFFF) by (nonlinear_arith)
                requires
                    num <= 0xFFFF_FFFF,
                    src_w <= 0xFFFF_FFFF,
            ;
            assert(src_h * num <= 0xFFFF_FFFF * 0xFFFF_FFFF) by (nonlinear_arith)
                requires
                    num <= 0xFFFF_FFFF,
                    src_h <= 0xFFFF_FFFF,
            ;
            assert((src_w * num) as int / den as int <= src_w) by (nonlinear_arith)
                requires
                    num < den,
                    den > 0,
            ;
            assert((src_h * num) as int / den as int <= src_h) by (nonlinear_arith)
                requires
                    num < den,
                    den > 0,
            ;
        }
        let w = even_floor_2(src_w * num / den);
        let h = even_floor_2(src_h * num / den);
        (w as u32, h as u32)
    }

    /// Validates the profile.
    ///
    /// # Errors
    /// Returns [`AssetError::Validation`] for a non-positive resolution on
    /// video profiles, an unsupported or missing codec, a zero video bit
    /// rate, or a frame rate that is not positive and finite.
    pub fn validate(&self) -> (r: Result<(), AssetError>)
        ensures
            r is Ok <==> spec_profile_valid(*self),
            r matches Err(e) ==> e is Validation,
    {
        if self.is_audio_only() {
            if self.audio_codec.as_str().unicode_len() == 0 {
                return Err(AssetError::validation("audio proxy profile needs an audio codec"));
            }
        } else {
            if self.resolution.0 == 0 || self.resolution.1 == 0 {
                return Err(AssetError::validation("video proxy resolution must be positive"));
            }
            if self.video_codec.as_str().unicode_len() == 0 {
                return Err(AssetError::validation("video proxy profile needs a video codec"));
            }
            if self.video_codec != video_codec() {
                return Err(
                    AssetError::validation("unsupported video codec; only kinetix-lossless is encodable today"),
                );
            }
            if self.video_bit_rate == 0 {
                return Err(AssetError::validation("video proxy bit rate must be positive"));
            }
        }
        if let Some(fps) = self.frame_rate {
            if !(0 < fps && fps < 0x7FF0_0000_0000_0000) {
                return Err(AssetError::validation("invalid frame rate"));
            }
        }
        Ok(())
    }
}

/// The proxy presets a user can pick by name.
#[derive(Debug, Clone, Copy, PartialEq, Eq, Structural)]
pub enum ProfilePreset {
    /// 1920x1080, low bitrate.
    Low,
    /// 1280x720, medium bitrate.
    Medium,
    /// Audio-only (currently written as PCM WAV).
    Flac,
}

impl ProfilePreset {
    /// The profile a preset names.
    pub fn profile(self) -> (r: ProxyProfile)
        ensures
            r@ == match self {
                ProfilePreset::Low => preset_1080p_low(),
                ProfilePreset::Medium => preset_720p_medium(),
                ProfilePreset::Flac => preset_audio_flac(),
            },
    {
        match self {
            ProfilePreset::Low => ProxyProfile::proxy_1080p_low(),
            ProfilePreset::Medium => ProxyProfile::proxy_720p_medium(),
            ProfilePreset::Flac => ProxyProfile::audio_proxy_flac(),
        }
    }
}

/// [`VIDEO_CODEC`] as an owned string.
fn video_codec() -> (r: String)
    ensures
        r@ == video_codec_name(),
{
    proof {
        reveal_strlit("kinetix-lossless");
        assert("kinetix-lossless"@ =~= video_codec_name());
    }
    String::from_str(VIDEO_CODEC)
}

/// The target size fits inside the box and never upscales the source;
/// its sides are even.
pub proof fn lemma_target_size_fits(max_w: nat, max_h: nat, src_w: nat, src_h: nat)
    requires
        max_w >= 2,
        max_h >= 2,
        src_w >= 2,
        src_h >= 2,
    ensures
        ({
            let (w, h) = spec_target_size(max_w, max_h, src_w, src_h);
            &&& w % 2 == 0 && h % 2 == 0
            &&& 2 <= w <= src_w && 2 <= h <= src_h
            &&& w <= max_w && h <= max_h
        }),
{
    let (num, den) = if max_w * src_h <= max_h * src_w {
        (max_w, src_w)
    } else {
        (max_h, src_h)
    };
    if max_w * src_h <= max_h * src_w {
        // width-limited: src_h * max_w / src_w <= max_h
        assert(src_h * max_w / src_w <= max_h) by (nonlinear_arith)
            requires
                max_w * src_h <= max_h * src_w,
                src_w >= 1,
        {
            vstd::arithmetic::div_mod::lemma_div_is_ordered((src_h * max_w) as int, (max_h * src_w) as int, src_w as int);
            vstd::arithmetic::div_mod::lemma_div_by_multiple(max_h as int, src_w as int);
        }
        assert(src_w * max_w / src_w == max_w) by (nonlinear_arith)
            requires
                src_w >= 1,
        {
            vstd::arithmetic::div_mod::lemma_div_by_multiple(max_w as int, src_w as int);
        }
        if num >= den {
            assert(src_h <= max_h) by (nonlinear_arith)
                requires
                    max_w * src_h <= max_h * src_w,
                    max_w >= src_w,
                    src_w >= 1,
            ;
        } else {
            assert(src_h * max_w / src_w <= src_h) by (nonlinear_arith)
                requires
                    max_w < src_w,
                    src_w >= 1,
            ;
        }
    } else {
        assert(src_w * max_h / src_h <= max_w) by (nonlinear_arith)
            requires
                max_w * src_h > max_h * src_w,
                src_h >= 1,
        {
            vstd::arithmetic::div_mod::lemma_div_is_ordered((src_w * max_h) as int, (max_w * src_h) as int, src_h as int);
            vstd::arithmetic::div_mod::lemma_div_by_multiple(max_w as int, src_h as int);
        }
        assert(src_h * max_h / src_h == max_h) by (nonlinear_arith)
            requires
                src_h >= 1,
        {
            vstd::arithmetic::div_mod::lemma_div_by_multiple(max_h as int, src_h as int);
        }
        if num >= den {
            assert(src_w <= max_w) by (nonlinear_arith)
                requires
                    max_w * src_h > max_h * src_w,
                    max_h >= src_h,
                    src_h >= 1,
            ;
        } else {
            assert(src_w * max_h / src_h <= src_w) by (nonlinear_arith)
                requires
                    max_h < src_h,
                    src_h >= 1,
            ;
        }
    }
}

} // verus!
