use tpt_av_asset::extensions::{is_image_extension, proxy_file_name, proxy_source_kind, ProxySource};
use tpt_av_asset::model::AssetError;
use tpt_av_asset::peaks::{decode_record, encode_record, WaveformChunk};
use tpt_av_asset::thumbnail::{
    cached_indices, check_thumbnail_params, decode_meta, encode_meta, file_name_for_index, index_of_file_name,
};

#[test]
fn thumbnail_meta_roundtrip() {
    let meta = encode_meta(0.5f64.to_bits(), (320, 180));
    assert_eq!(meta.len(), 24);
    assert_eq!(&meta[0..8], b"TPTTHMB1");
    let (interval, resolution) = decode_meta(&meta).unwrap();
    assert_eq!(f64::from_bits(interval), 0.5);
    assert_eq!(resolution, (320, 180));
}

#[test]
fn corrupt_thumbnail_meta_is_rejected() {
    assert!(matches!(decode_meta(&[0u8; 10]), Err(AssetError::Validation(_))));
    let mut meta = encode_meta(1.0f64.to_bits(), (16, 9));
    meta[3] = b'X';
    assert!(decode_meta(&meta).is_err());
    // Trailing bytes are ignored.
    let mut long = encode_meta(1.0f64.to_bits(), (16, 9));
    long.push(0);
    assert!(decode_meta(&long).is_ok());
}

#[test]
fn thumbnail_params_are_checked() {
    assert!(check_thumbnail_params(0.5f64.to_bits(), (320, 180)).is_ok());
    assert!(check_thumbnail_params(0.0f64.to_bits(), (320, 180)).is_err());
    assert!(check_thumbnail_params(f64::NAN.to_bits(), (320, 180)).is_err());
    assert!(check_thumbnail_params(1.0f64.to_bits(), (0, 180)).is_err());
}

#[test]
fn thumbnail_file_names() {
    assert_eq!(file_name_for_index(2), "000002.jpg");
    assert_eq!(file_name_for_index(1_234_567), "1234567.jpg");
    assert_eq!(index_of_file_name("000002.jpg"), Some(2));
    assert_eq!(index_of_file_name("meta"), None);
    assert_eq!(index_of_file_name("x.jpg"), None);
    assert_eq!(index_of_file_name(".jpg"), None);
    assert_eq!(index_of_file_name("12.png"), None);
    assert_eq!(index_of_file_name("+5.jpg"), Some(5));
}

#[test]
fn cached_indices_are_sorted_and_filtered() {
    let names: Vec<String> = ["000010.jpg", "meta", "000002.jpg", "notes.txt", "000007.jpg", "000002.jpg"]
        .iter()
        .map(|s| s.to_string())
        .collect();
    assert_eq!(cached_indices(&names), vec![2, 2, 7, 10]);
    assert_eq!(cached_indices(&Vec::new()), Vec::<u64>::new());
}

#[test]
fn extensions_ignore_ascii_case() {
    assert!(is_image_extension("JPG"));
    assert!(is_image_extension("tiff"));
    assert!(!is_image_extension("wav"));
    assert_eq!(proxy_source_kind("WAV"), Some(ProxySource::Audio));
    assert_eq!(proxy_source_kind("flac"), Some(ProxySource::Audio));
    assert_eq!(proxy_source_kind("Mp4"), Some(ProxySource::Video));
    assert_eq!(proxy_source_kind("tkvp"), Some(ProxySource::Video));
    assert_eq!(proxy_source_kind("mov"), None);
    assert_eq!(proxy_file_name("tone", ProxySource::Audio), "tone_proxy.wav");
    assert_eq!(proxy_file_name("clip", ProxySource::Video), "clip_proxy.tkvp");
}

#[test]
fn peak_records_roundtrip() {
    let chunk = WaveformChunk {
        index: 3,
        min: (-0.5f32).to_bits(),
        max: 0.75f32.to_bits(),
        rms: 0.25f32.to_bits(),
    };
    let raw = encode_record(&chunk);
    assert_eq!(&raw[4..8], &0.75f32.to_le_bytes());
    assert_eq!(decode_record(3, &raw), chunk);
}
