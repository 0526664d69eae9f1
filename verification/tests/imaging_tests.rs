use tpt_av_asset::encoder::VideoEncoderSink;
use tpt_av_asset::imaging::{decode_rgba, encode_jpeg, resize_rgba};
use tpt_av_asset::model::AssetError;
use tpt_av_asset::profile::ProxyProfile;
use tpt_av_asset::video::RgbaFrame;

fn gradient(w: u32, h: u32) -> Vec<u8> {
    let mut data = vec![0u8; (w * h * 4) as usize];
    for (i, px) in data.chunks_exact_mut(4).enumerate() {
        px[0] = (i * 7) as u8;
        px[1] = (i * 3) as u8;
        px[2] = 200;
        px[3] = 255;
    }
    data
}

#[test]
fn resize_changes_the_size_and_keeps_same_size_frames() {
    let src = gradient(8, 6);
    let small = resize_rgba(&src, 8, 6, 4, 2).unwrap();
    assert_eq!(small.len(), 4 * 2 * 4);
    assert_ne!(small, src[..small.len()].to_vec(), "resampling is not the identity");
    assert_eq!(resize_rgba(&src, 8, 6, 8, 6).unwrap(), src);
}

#[test]
fn resize_rejects_short_frames() {
    assert!(matches!(resize_rgba(&[0u8; 10], 2, 2, 1, 1), Err(AssetError::Codec(_))));
}

#[test]
fn jpeg_roundtrip_keeps_the_size() {
    let src = gradient(16, 8);
    let jpeg = encode_jpeg(&src, 16, 8).unwrap();
    assert_eq!(&jpeg[0..2], &[0xff, 0xd8]);
    let (w, h, px) = decode_rgba(&jpeg).unwrap();
    assert_eq!((w, h), (16, 8));
    assert_eq!(px.len(), 16 * 8 * 4);
}

#[test]
fn jpeg_errors() {
    assert!(matches!(encode_jpeg(&[0u8; 3], 1, 1), Err(AssetError::Validation(_))));
    assert!(matches!(decode_rgba(b"not an image"), Err(AssetError::Codec(_))));
}

#[test]
fn encoder_sink_resizes_and_counts() {
    let profile = ProxyProfile::proxy_720p_medium();
    let mut sink = VideoEncoderSink::open(&profile, 1920, 1080, 25.0f64.to_bits()).unwrap();
    assert_eq!(sink.target(), (1280, 720));
    assert_eq!(sink.frame_count(), 0);
    let frame = RgbaFrame { index: 0, time_secs: 0, width: 4, height: 2, data: gradient(4, 2) };
    let planes = sink.write_resized(&frame).unwrap();
    assert_eq!(planes.len(), 3);
    assert_eq!(planes[0].data.len(), 1280 * 720);
    let bad = RgbaFrame { index: 1, time_secs: 0, width: 4, height: 2, data: vec![0u8; 7] };
    assert!(matches!(sink.write_resized(&bad), Err(AssetError::Codec(_))));
    assert_eq!(sink.frame_count(), 1);
    let header = sink.finish();
    assert_eq!(&header[0..7], b"TPTVPR1");
    assert_eq!(u32::from_le_bytes(header[24..28].try_into().unwrap()), 1);
    assert_eq!(f64::from_le_bytes(header[16..24].try_into().unwrap()), 25.0);
}

#[test]
fn encoder_sink_validates_the_profile() {
    let mut bad = ProxyProfile::proxy_1080p_low();
    bad.video_codec = "h264".into();
    assert!(matches!(VideoEncoderSink::open(&bad, 64, 48, 1), Err(AssetError::Validation(_))));
    let mut fixed = ProxyProfile::proxy_1080p_low();
    fixed.frame_rate = Some(10.0f64.to_bits());
    let sink = VideoEncoderSink::open(&fixed, 64, 48, 30.0f64.to_bits()).unwrap();
    assert_eq!(sink.target(), (64, 48));
    let header = sink.header_bytes();
    assert_eq!(f64::from_le_bytes(header[16..24].try_into().unwrap()), 10.0);
}

#[test]
fn jpeg_refuses_empty_and_oversized_sides() {
    assert!(matches!(encode_jpeg(&[], 0, 4), Err(AssetError::Codec(_))));
    assert!(matches!(encode_jpeg(&vec![0u8; 70_000 * 4], 70_000, 1), Err(AssetError::Codec(_))));
}
