use tpt_av_asset::model::{CacheType, JobState, MediaType, Priority};

#[test]
fn cache_type_tags_roundtrip() {
    for tag in 0..4u8 {
        assert_eq!(CacheType::from_u8(tag).unwrap().as_u8(), tag);
    }
    assert!(CacheType::from_u8(4).is_none());
    assert_eq!(CacheType::VideoProxy.to_string(), "video_proxy");
}

#[test]
fn cache_type_ordering_is_declaration_order() {
    let types = [
        CacheType::AudioProxy,
        CacheType::WaveformPeaks,
        CacheType::VideoProxy,
    ];
    assert_eq!(
        types.iter().map(|t| t.as_u8()).collect::<Vec<_>>(),
        vec![3, 0, 2]
    );
}

#[test]
fn job_state_tags_and_terminality() {
    for tag in 0..5u8 {
        assert_eq!(JobState::from_u8(tag).unwrap().as_u8(), tag);
    }
    assert!(JobState::from_u8(5).is_none());
    assert!(!JobState::Running.is_terminal());
    assert!(JobState::Completed.is_terminal());
    assert!(JobState::Failed.is_terminal());
    assert!(JobState::Cancelled.is_terminal());
}

#[test]
fn pending_is_not_terminal() {
    assert!(!JobState::Pending.is_terminal());
}

#[test]
fn cache_type_names() {
    assert_eq!(CacheType::WaveformPeaks.name(), "waveform_peaks");
    assert_eq!(CacheType::VideoThumbnails.name(), "video_thumbnails");
    assert_eq!(CacheType::AudioProxy.to_string(), "audio_proxy");
}

#[test]
fn priority_and_media_type_tags_roundtrip() {
    for tag in 0..4u8 {
        assert_eq!(Priority::from_u8(tag).unwrap().as_u8(), tag);
    }
    assert!(Priority::from_u8(4).is_none());
    assert_eq!(Priority::Critical.as_u8(), 3);
    assert_eq!(Priority::Low.as_u8(), 0);
    for tag in 0..3u8 {
        assert_eq!(MediaType::from_u8(tag).unwrap().as_u8(), tag);
    }
    assert!(MediaType::from_u8(3).is_none());
}
