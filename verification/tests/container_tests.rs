use tpt_av_asset::container::{
    magic, planes_to_rgba, rgba_to_planes, scan_frame_table, Header, Writer, BIT_DEPTH,
    PLANE_COUNT, TRANSFORM_ID, VERSION,
};
use tpt_av_asset::model::AssetError;

#[test]
fn header_rejects_bad_magic_and_params() {
    let mut raw = [0u8; 32];
    assert!(Header::parse(&raw).is_err());
    raw[0..7].copy_from_slice(&magic());
    assert!(Header::parse(&raw).is_err(), "zero dimensions");
    raw[8..12].copy_from_slice(&64u32.to_le_bytes());
    raw[12..16].copy_from_slice(&48u32.to_le_bytes());
    raw[16..24].copy_from_slice(&30.0f64.to_le_bytes());
    raw[28] = VERSION;
    raw[29] = TRANSFORM_ID;
    raw[30] = PLANE_COUNT as u8;
    raw[31] = BIT_DEPTH;
    assert!(Header::parse(&raw).is_ok());
    raw[31] = 12; // unsupported bit depth
    assert!(Header::parse(&raw).is_err());
}

#[test]
fn header_bytes_parse_back() {
    let h = Header { width: 64, height: 48, fps: 12.0f64.to_bits(), frame_count: 3 };
    let raw = h.bytes();
    assert_eq!(&raw[0..7], b"TPTVPR1");
    assert_eq!(Header::parse(&raw).unwrap(), h);
}

#[test]
fn header_rejects_bad_frame_rates() {
    for fps in [0.0f64, -1.0, f64::INFINITY, f64::NAN] {
        let h = Header { width: 8, height: 8, fps: fps.to_bits(), frame_count: 0 };
        assert!(matches!(Header::parse(&h.bytes()), Err(AssetError::Validation(_))));
    }
}

#[test]
fn planes_roundtrip_is_lossless_for_colour() {
    let (w, h) = (8u32, 6u32);
    let mut rgba = vec![0u8; (w * h * 4) as usize];
    for (offset, pixel) in rgba.chunks_exact_mut(4).enumerate() {
        pixel[0] = (offset as u8).wrapping_mul(7);
        pixel[1] = offset as u8;
        pixel[2] = 32;
        pixel[3] = 9;
    }
    let planes = rgba_to_planes(&rgba, w, h);
    assert_eq!(planes.len(), 3);
    assert_eq!(planes[0].data[1], 7 * 257);
    let back = planes_to_rgba(&planes, w, h).unwrap();
    for (a, b) in rgba.chunks_exact(4).zip(back.chunks_exact(4)) {
        assert_eq!(&a[0..3], &b[0..3]);
        assert_eq!(b[3], 255);
    }
}

#[test]
fn planes_to_rgba_rejects_malformed_sets() {
    let planes = rgba_to_planes(&[1, 2, 3, 4], 1, 1);
    assert!(matches!(planes_to_rgba(&planes[0..2], 1, 1), Err(AssetError::Codec(_))));
    assert!(matches!(planes_to_rgba(&planes, 2, 1), Err(AssetError::Codec(_))));
}

#[test]
fn writer_counts_frames_and_patches_the_header() {
    let mut w = Writer::create(4, 2, 12.0f64.to_bits()).unwrap();
    assert_eq!(Header::parse(&w.header_bytes()).unwrap().frame_count, 0);
    assert!(matches!(w.write_frame(&[0u8; 31]), Err(AssetError::Validation(_))));
    assert_eq!(w.frame_count(), 0);
    let planes = w.write_frame(&[5u8; 32]).unwrap();
    assert_eq!(planes.len(), 3);
    assert_eq!(planes[2].data.len(), 8);
    w.write_frame(&[6u8; 32]).unwrap();
    assert_eq!(w.frame_count(), 2);
    let done = Header::parse(&w.finish()).unwrap();
    assert_eq!(done.frame_count, 2);
    assert_eq!((done.width, done.height), (4, 2));
}

#[test]
fn writer_rejects_sizes_beyond_sixteen_bits() {
    assert!(Writer::create(65_536, 10, 1).is_err());
    assert!(Writer::create(65_535, 65_535, 1).is_ok());
}

fn stream(frames: &[&[u8]]) -> Vec<u8> {
    let mut data = Header { width: 2, height: 2, fps: 10.0f64.to_bits(), frame_count: 0 }
        .bytes()
        .to_vec();
    for f in frames {
        data.extend_from_slice(&(f.len() as u32).to_le_bytes());
        data.extend_from_slice(f);
    }
    data
}

#[test]
fn frame_table_lists_every_frame_when_unbounded() {
    let data = stream(&[&[1, 2, 3], &[4, 5]]);
    assert_eq!(scan_frame_table(&data, 0), vec![(36, 3), (43, 2)]);
}

#[test]
fn frame_table_stops_at_declared_count_and_truncation() {
    let mut data = stream(&[&[1, 2, 3], &[4, 5]]);
    assert_eq!(scan_frame_table(&data, 1), vec![(36, 3)]);
    // A tail entry that claims more bytes than exist is dropped.
    data.extend_from_slice(&1000u32.to_le_bytes());
    data.push(9);
    assert_eq!(scan_frame_table(&data, 0), vec![(36, 3), (43, 2)]);
    assert_eq!(scan_frame_table(&data, 1_000_000), vec![(36, 3), (43, 2)]);
}
