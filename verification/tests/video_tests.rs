use tpt_av_asset::annexb::{group_access_units, split_annexb};
use tpt_av_asset::model::AssetError;
use tpt_av_asset::video::{avcc_to_annexb, sniff_video, yuv420p_to_rgba, SourceKind};

#[test]
fn sniffing_recognizes_both_containers() {
    assert_eq!(sniff_video(b"TPTVPR1\0"), Some(SourceKind::ProxyStream));
    assert_eq!(sniff_video(b"TPTVPR1"), Some(SourceKind::ProxyStream));
    assert_eq!(sniff_video(b"\0\0\0\x18ftypisom"), Some(SourceKind::Mp4H264));
    assert_eq!(sniff_video(b"\0\0\0\x18ftypiso"), None, "an ftyp head needs twelve bytes");
    assert_eq!(sniff_video(b"RIFF\0\0\0\0WAVE"), None);
    assert_eq!(sniff_video(b""), None);
}

#[test]
fn avcc_samples_become_annexb() {
    let sample = [0, 0, 0, 2, 0x65, 0x88, 0, 0, 0, 1, 0x41];
    assert_eq!(
        avcc_to_annexb(&sample).unwrap(),
        vec![0, 0, 0, 1, 0x65, 0x88, 0, 0, 0, 1, 0x41]
    );
    // Up to three trailing bytes are ignored.
    assert_eq!(avcc_to_annexb(&[0, 0, 0, 1, 7, 9, 9]).unwrap(), vec![0, 0, 0, 1, 7]);
}

#[test]
fn avcc_errors() {
    assert!(matches!(avcc_to_annexb(&[0, 0, 0, 5, 1, 2]), Err(AssetError::Codec(_))));
    assert!(matches!(avcc_to_annexb(&[1, 2]), Err(AssetError::Codec(_))));
    assert!(matches!(avcc_to_annexb(&[]), Err(AssetError::Codec(_))));
}

#[test]
fn grey_yuv_is_grey_rgba() {
    // 2x2 picture: Y = 128 everywhere, neutral chroma.
    let data = [128u8, 128, 128, 128, 128, 128];
    let rgba = yuv420p_to_rgba(&data, 2, 2).unwrap();
    assert_eq!(rgba.len(), 16);
    // (298 * 112 + 128) >> 8 = 130
    for px in rgba.chunks_exact(4) {
        assert_eq!(px, &[130, 130, 130, 255]);
    }
}

#[test]
fn yuv_extremes_clamp() {
    // 1x1: black luma with strong chroma, then white luma.
    let rgba = yuv420p_to_rgba(&[16, 255, 255], 1, 1).unwrap();
    // r = (409*127 + 128) >> 8 = 203, g = (-100*127 - 208*127 + 128) >> 8 = -153 -> 0,
    // b = (516*127 + 128) >> 8 = 256 -> 255
    assert_eq!(rgba, vec![203, 0, 255, 255]);
    let white = yuv420p_to_rgba(&[235, 128, 128], 1, 1).unwrap();
    assert_eq!(white, vec![255, 255, 255, 255]);
}

#[test]
fn yuv_frame_too_small() {
    assert!(matches!(yuv420p_to_rgba(&[0u8; 5], 2, 2), Err(AssetError::Codec(_))));
    // Odd sizes round the chroma planes up: 3x3 needs 9 + 2*4 bytes.
    assert!(yuv420p_to_rgba(&[0u8; 16], 3, 3).is_err());
    assert_eq!(yuv420p_to_rgba(&[16u8; 17], 3, 3).unwrap().len(), 36);
}

#[test]
fn annexb_streams_split_into_nal_units() {
    let stream = [
        9, 9, // bytes before the first start code belong to no unit
        0, 0, 0, 1, 0x67, 1, 2, // SPS (four-byte start code)
        0, 0, 1, 0x68, 3, // PPS (three-byte start code)
        0, 0, 1, // empty unit, dropped
        0, 0, 1, 0x65, 4, 5, 6,
    ];
    assert_eq!(
        split_annexb(&stream),
        vec![vec![0x67, 1, 2], vec![0x68, 3], vec![0x65, 4, 5, 6]]
    );
    assert!(split_annexb(&[1, 2, 3]).is_empty());
}

#[test]
fn access_units_carry_parameter_sets_in_band() {
    let stream = [0, 0, 0, 1, 0x67, 1, 0, 0, 0, 1, 0x68, 2, 0, 0, 0, 1, 0x65, 3];
    let units = group_access_units(&stream).unwrap();
    assert_eq!(units.sps, vec![0x67, 1]);
    assert_eq!(units.pps, vec![0x68, 2]);
    assert_eq!(units.units.len(), 1);
    let (payload, key) = &units.units[0];
    assert!(*key);
    assert_eq!(
        payload,
        &vec![0, 0, 0, 2, 0x67, 1, 0, 0, 0, 2, 0x68, 2, 0, 0, 0, 2, 0x65, 3]
    );
}

#[test]
fn slices_need_parameter_sets_first() {
    assert!(group_access_units(&[0, 0, 1, 0x65, 1]).is_err());
    assert!(group_access_units(&[0, 0, 1, 0x67, 1, 0, 0, 1, 0x68, 2]).is_err(), "no access unit");
    // After an access unit the parameter sets must be seen again.
    let stream = [
        0, 0, 1, 0x67, 1, 0, 0, 1, 0x68, 2, 0, 0, 1, 0x65, 3, 0, 0, 1, 0x41, 4,
    ];
    assert!(group_access_units(&stream).is_err());
}
