use tpt_av_asset::model::AssetError;
use tpt_av_asset::profile::{ProfilePreset, ProxyProfile};

#[test]
fn presets_match_spec() {
    let low = ProxyProfile::proxy_1080p_low();
    assert_eq!(low.resolution, (1920, 1080));
    assert_eq!(low.video_bit_rate, 2_000_000);
    assert_eq!(low.audio_bit_rate, 128_000);
    assert!(!low.is_audio_only());
    assert_eq!(low.output_extension(), "tkvp");

    let medium = ProxyProfile::proxy_720p_medium();
    assert_eq!(medium.resolution, (1280, 720));
    assert_eq!(medium.video_bit_rate, 5_000_000);

    let flac = ProxyProfile::audio_proxy_flac();
    assert!(flac.is_audio_only());
    assert_eq!(flac.audio_codec, "flac");
    assert_eq!(flac.output_extension(), "wav");
    assert!(flac.validate().is_ok());
    assert!(low.validate().is_ok());
    assert!(medium.validate().is_ok());
}

#[test]
fn target_size_preserves_aspect_ratio() {
    let profile = ProxyProfile::proxy_1080p_low();

    // 16:9 4K → exactly 1080p.
    assert_eq!(profile.target_size(3840, 2160), (1920, 1080));
    // Already smaller than target: never upscale.
    assert_eq!(profile.target_size(1280, 720), (1280, 720));
    // 4:3 source letterboxes inside 16:9 target.
    assert_eq!(profile.target_size(1440, 1080), (1440, 1080));
    // Vertical video: fit by height (607.5 floors to 607, evened to 606).
    let (w, h) = profile.target_size(2160, 3840);
    assert_eq!(h, 1080);
    assert_eq!(w, 606);
}

#[test]
fn validation_rejects_bad_profiles() {
    // (0, 1080) stays a video profile but has an invalid width; a full
    // (0, 0) resolution would reclassify the profile as audio-only.
    let mut bad = ProxyProfile::proxy_1080p_low();
    bad.resolution = (0, 1080);
    assert!(bad.validate().is_err());
    assert!(!bad.is_audio_only());

    let mut bad = ProxyProfile::proxy_1080p_low();
    bad.frame_rate = Some((-1.0f64).to_bits());
    assert!(bad.validate().is_err());

    let mut bad = ProxyProfile::proxy_1080p_low();
    bad.video_bit_rate = 0;
    assert!(bad.validate().is_err());

    let mut bad = ProxyProfile::proxy_1080p_low();
    bad.video_codec = "h264".into(); // no H.264 encoder exists yet
    assert!(bad.validate().is_err());
}

#[test]
fn target_size_rounds_odd_sides_down_to_even() {
    let profile = ProxyProfile::proxy_720p_medium();
    // Height-limited: 1921 × 720 / 1081 = 1279.48… → 1279 → 1278.
    assert_eq!(profile.target_size(1921, 1081), (1278, 720));
    assert_eq!(profile.target_size(641, 361), (640, 360));
}

#[test]
fn target_size_never_goes_below_two() {
    let profile = ProxyProfile::proxy_1080p_low();
    assert_eq!(profile.target_size(1, 1), (2, 2));
    assert_eq!(profile.target_size(0, 0), (2, 2));
    assert_eq!(profile.target_size(8000, 2), (1920, 2));
}

#[test]
fn audio_profile_needs_a_codec_and_a_finite_rate() {
    let mut p = ProxyProfile::audio_proxy_flac();
    p.audio_codec = String::new();
    assert!(matches!(p.validate(), Err(AssetError::Validation(_))));
    let mut p = ProxyProfile::audio_proxy_flac();
    p.frame_rate = Some(f64::INFINITY.to_bits());
    assert!(p.validate().is_err());
    p.frame_rate = Some(25.0f64.to_bits());
    assert!(p.validate().is_ok());
}

#[test]
fn empty_video_codec_makes_a_profile_audio_only() {
    let mut p = ProxyProfile::proxy_720p_medium();
    p.video_codec = String::new();
    assert!(p.is_audio_only());
    assert_eq!(p.output_extension(), "wav");
}

#[test]
fn presets_by_name() {
    assert_eq!(ProfilePreset::Low.profile().resolution, (1920, 1080));
    assert_eq!(ProfilePreset::Medium.profile().name, "720p Medium");
    assert_eq!(ProfilePreset::Flac.profile().name, "Audio Proxy (FLAC)");
}

#[test]
fn target_size_keeps_a_side_the_box_reaches_exactly() {
    let mut profile = ProxyProfile::proxy_720p_medium();
    profile.resolution = (58, 1080);
    assert_eq!(profile.target_size(182, 97), (58, 30));
}
