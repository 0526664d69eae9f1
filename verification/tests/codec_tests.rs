use tpt_av_asset::asset::{
    asset_key, cache_key, decode_media_info, encode_media_info, AssetId, AudioInfo, MediaInfo,
    VideoInfo,
};
use tpt_av_asset::codec::{Dec, Enc};
use tpt_av_asset::model::{AssetError, JobState, MediaType, Priority};
use tpt_av_asset::tables::{decode_cache_entry, decode_job_record, encode_cache_entry, encode_job_record, JobRecord};

#[test]
fn codec_scalar_roundtrip() {
    let mut e = Enc::new();
    e.u8(7);
    e.u16(65500);
    e.u32(4_000_000_000);
    e.u64(u64::MAX);
    e.f64_bits(std::f64::consts::PI.to_bits());
    e.str("héllo media");
    e.opt_u64(None);
    e.opt_u64(Some(42));
    e.opt_f64(None);
    e.opt_f64(Some((-1.5f64).to_bits()));
    e.bytes(&[1, 2, 3, 255]);

    let data = e.finish();
    let mut d = Dec::new(&data);
    assert_eq!(d.u8().unwrap(), 7);
    assert_eq!(d.u16().unwrap(), 65500);
    assert_eq!(d.u32().unwrap(), 4_000_000_000);
    assert_eq!(d.u64().unwrap(), u64::MAX);
    assert!((f64::from_bits(d.f64_bits().unwrap()) - std::f64::consts::PI).abs() < f64::EPSILON);
    assert_eq!(d.str().unwrap(), "héllo media");
    assert_eq!(d.opt_u64().unwrap(), None);
    assert_eq!(d.opt_u64().unwrap(), Some(42));
    assert_eq!(d.opt_f64().unwrap(), None);
    assert_eq!(d.opt_f64().unwrap().map(f64::from_bits), Some(-1.5));
    assert_eq!(d.bytes().unwrap(), &[1, 2, 3, 255]);
    assert!(d.is_empty());
}

#[test]
fn codec_detects_truncation() {
    let mut e = Enc::new();
    e.str("abc");
    let data = e.finish();
    let mut d = Dec::new(&data[..data.len() - 1]);
    assert!(d.str().is_err());
}

#[test]
fn keys_are_stable() {
    let id = AssetId::from_parts(1, 2, 3);
    let k = asset_key(&id);
    assert_eq!(k, id.key_bytes());
    let ck = cache_key(&id, 2);
    assert_eq!(&ck[..24], &k[..]);
    assert_eq!(ck[24], 2);
}

#[test]
fn scalars_are_little_endian() {
    let mut e = Enc::new();
    e.u16(0x0102);
    e.u32(0x0304_0506);
    e.str("ab");
    assert_eq!(e.finish(), vec![0x02, 0x01, 0x06, 0x05, 0x04, 0x03, 2, 0, 0, 0, b'a', b'b']);
}

#[test]
fn invalid_utf8_is_a_db_error() {
    let mut e = Enc::new();
    e.bytes(&[0xff, 0xfe]);
    let data = e.finish();
    let mut d = Dec::new(&data);
    assert!(matches!(d.str(), Err(AssetError::Db(_))));
}

#[test]
fn truncated_scalars_are_errors() {
    let data = [1u8, 2, 3];
    let mut d = Dec::new(&data);
    assert!(d.u32().is_err());
    let mut d = Dec::new(&data);
    assert_eq!(d.u16().unwrap(), 0x0201);
    assert!(d.u16().is_err());
}

fn sample_info() -> MediaInfo {
    let mut info = MediaInfo::new(
        AssetId::from_parts(0xAA, 1_700_000_000_000, 4096),
        "/media/show/S01E01.mkv",
        MediaType::Video,
    );
    info.duration_secs = Some(3600.5f64.to_bits());
    info.video = Some(VideoInfo {
        width: 3840,
        height: 2160,
        frame_rate: 23.976f64.to_bits(),
        codec: "h264".into(),
        pixel_format: "yuv420p".into(),
        bit_rate: Some(50_000_000),
        frame_count: 86_316,
        duration_secs: 3600.5f64.to_bits(),
    });
    info.audio = Some(AudioInfo {
        sample_rate: 48_000,
        channels: 2,
        bit_depth: 16,
        codec: "aac".into(),
        bit_rate: Some(192_000),
        duration_secs: 3600.5f64.to_bits(),
    });
    info
}

#[test]
fn media_info_row_roundtrip() {
    let info = sample_info();
    let decoded = decode_media_info(&encode_media_info(&info)).unwrap();
    assert_eq!(decoded.id, info.id);
    assert_eq!(decoded.path, info.path);
    assert_eq!(decoded.name, info.name);
    assert_eq!(decoded.media_type, info.media_type);
    assert_eq!(decoded.duration_secs, info.duration_secs);
    assert_eq!(decoded.video, info.video);
    assert_eq!(decoded.audio, info.audio);
}

#[test]
fn media_info_row_roundtrip_minimal() {
    let info = MediaInfo::new(AssetId::from_parts(1, 2, 3), "a.wav", MediaType::Audio);
    let decoded = decode_media_info(&encode_media_info(&info)).unwrap();
    assert_eq!(decoded.id, info.id);
    assert!(decoded.video.is_none() && decoded.audio.is_none());
    assert!(decoded.duration_secs.is_none());
}

#[test]
fn media_info_name_is_final_path_component() {
    let info = sample_info();
    assert_eq!(info.name, "S01E01.mkv");
    assert_eq!(info.size, 4096);
}

#[test]
fn corrupted_row_is_reported_not_panicked() {
    // Feeding garbage to the decoder must yield a clean error.
    assert!(decode_media_info(&[0u8; 3]).is_err());
}

#[test]
fn job_record_row_roundtrip() {
    let record = JobRecord {
        job_id: 42,
        asset_id: AssetId::from_parts(9, 8, 7),
        priority: Priority::High,
        state: JobState::Failed,
        kind: "waveform".into(),
        progress: 0.42f64.to_bits(),
        resume_hint: 12,
        payload: "/media/a.wav".into(),
        created_ms: 1_000,
        updated_ms: 2_000,
        error: Some("decode blew up".into()),
    };
    // Round-trip through the codec directly.
    let mut row = Enc::new();
    row.bytes(&asset_key(&record.asset_id));
    row.u8(record.priority.as_u8());
    row.u8(record.state.as_u8());
    row.str(&record.kind);
    row.f64_bits(record.progress);
    row.u64(record.resume_hint);
    row.str(&record.payload);
    row.u64(record.created_ms);
    row.u64(record.updated_ms);
    row.opt_str(record.error.as_deref());
    let decoded = decode_job_record(record.job_id, &row.finish()).unwrap();
    assert_eq!(decoded, record);
}

#[test]
fn job_record_encoding_stamps_update_time() {
    let record = JobRecord {
        job_id: 5,
        asset_id: AssetId::from_parts(1, 2, 3),
        priority: Priority::Normal,
        state: JobState::Pending,
        kind: "thumbnails".into(),
        progress: 0,
        resume_hint: 0,
        payload: String::new(),
        created_ms: 10,
        updated_ms: 20,
        error: None,
    };
    let later = decode_job_record(5, &encode_job_record(&record, 99)).unwrap();
    assert_eq!(later.updated_ms, 99);
    let earlier = decode_job_record(5, &encode_job_record(&record, 3)).unwrap();
    assert_eq!(earlier.updated_ms, 20, "the update time never goes back");
    assert_eq!(earlier.kind, "thumbnails");
}

#[test]
fn corrupt_rows_give_db_errors() {
    let info = MediaInfo::new(AssetId::from_parts(1, 2, 3), "a.wav", MediaType::Audio);
    let row = encode_media_info(&info);
    for k in 0..row.len() {
        assert!(matches!(decode_media_info(&row[..k]), Err(AssetError::Db(_))), "prefix {k}");
    }
    let mut longer = row.clone();
    longer.push(0);
    assert!(matches!(decode_media_info(&longer), Err(AssetError::Db(_))));
    let mut bad_tag = row.clone();
    let tag_at = 24 + 4 + "a.wav".len() + 4 + "a.wav".len();
    bad_tag[tag_at] = 9;
    assert!(matches!(decode_media_info(&bad_tag), Err(AssetError::Db(_))));

    let record = JobRecord {
        job_id: 42,
        asset_id: AssetId::from_parts(9, 8, 7),
        priority: Priority::High,
        state: JobState::Failed,
        kind: "waveform".into(),
        progress: 0.42f64.to_bits(),
        resume_hint: 12,
        payload: "/media/a.wav".into(),
        created_ms: 1_000,
        updated_ms: 2_000,
        error: Some("decode blew up".into()),
    };
    let mut job_row = encode_job_record(&record, 2_000);
    job_row[29] = 5;
    assert!(matches!(decode_job_record(42, &job_row), Err(AssetError::Db(_))));
    assert!(matches!(decode_cache_entry(&encode_cache_entry("x")[..3]), Err(AssetError::Db(_))));
}
