use tpt_av_asset::asset::{AssetId, AudioInfo, MediaInfo};
use tpt_av_asset::jobs::{plan_import_jobs, rebuild_job_spec, JobSpec};
use tpt_av_asset::model::{MediaType, Priority};
use tpt_av_asset::profile::ProxyProfile;
use tpt_av_asset::storage::CacheStorage;

fn waveform() -> JobSpec {
    JobSpec::Waveform { audio_path: "/media/song.wav".into(), chunk_size: 1024, sample_rate: 48_000 }
}

#[test]
fn kinds_priorities_and_payloads() {
    let w = waveform();
    assert_eq!(w.kind(), "waveform");
    assert_eq!(w.priority(), Priority::High);
    assert_eq!(w.payload(), "/media/song.wav\u{1}1024\u{1}48000");

    let t = JobSpec::Thumbnails {
        video_path: "/media/clip.mp4".into(),
        interval: "0.5".into(),
        width: 320,
        height: 180,
    };
    assert_eq!(t.kind(), "thumbnails");
    assert_eq!(t.priority(), Priority::Normal);
    assert_eq!(t.payload(), "/media/clip.mp4\u{1}0.5\u{1}320\u{1}180");

    let v = JobSpec::VideoProxy {
        video_path: "/m/a.mp4".into(),
        output: "/c/a_proxy.mp4".into(),
        profile: ProxyProfile::proxy_1080p_low(),
    };
    assert_eq!(v.kind(), "video_proxy");
    assert_eq!(v.payload(), "/m/a.mp4\u{1}/c/a_proxy.mp4\u{1}1080p Low");
}

#[test]
fn persisted_jobs_rebuild() {
    match rebuild_job_spec("waveform", &waveform().payload()) {
        Some(JobSpec::Waveform { audio_path, chunk_size, sample_rate }) => {
            assert_eq!(audio_path, "/media/song.wav");
            assert_eq!((chunk_size, sample_rate), (1024, 48_000));
        }
        other => panic!("unexpected {other:?}"),
    }
    match rebuild_job_spec("audio_proxy", "/m/a.wav\u{1}/c/a.flac\u{1}whatever") {
        Some(JobSpec::AudioProxy { audio_path, output, profile }) => {
            assert_eq!(audio_path, "/m/a.wav");
            assert_eq!(output, "/c/a.flac");
            assert_eq!(profile.name, "Audio Proxy (FLAC)");
        }
        other => panic!("unexpected {other:?}"),
    }
}

#[test]
fn unknown_kinds_and_bad_numbers_do_not_rebuild() {
    assert!(rebuild_job_spec("slow", "").is_none());
    assert!(rebuild_job_spec("waveform", "/a.wav\u{1}ten\u{1}48000").is_none());
    assert!(rebuild_job_spec("waveform", "/a.wav").is_none());
    assert!(rebuild_job_spec("thumbnails", "/a.mp4\u{1}1.0\u{1}320").is_none());
    // Missing proxy fields rebuild as empty paths.
    match rebuild_job_spec("video_proxy", "") {
        Some(JobSpec::VideoProxy { video_path, output, .. }) => {
            assert!(video_path.is_empty() && output.is_empty());
        }
        other => panic!("unexpected {other:?}"),
    }
}

#[test]
fn audio_import_plans_waveform_and_audio_proxy() {
    let storage = CacheStorage::new("/cache");
    let id = AssetId::from_parts(5, 6, 7);
    let mut info = MediaInfo::new(id, "/media/tone.wav", MediaType::Audio);
    info.audio = Some(AudioInfo {
        sample_rate: 16_000,
        channels: 2,
        bit_depth: 16,
        codec: "pcm_s16le".into(),
        bit_rate: None,
        duration_secs: 1.0f64.to_bits(),
    });
    let jobs = plan_import_jobs(&info, &storage, 1024, "1", (320, 180));
    assert_eq!(jobs.len(), 2);
    match &jobs[0] {
        JobSpec::Waveform { audio_path, chunk_size, sample_rate } => {
            assert_eq!(audio_path, "/media/tone.wav");
            assert_eq!((*chunk_size, *sample_rate), (1024, 16_000));
        }
        other => panic!("unexpected {other:?}"),
    }
    match &jobs[1] {
        JobSpec::AudioProxy { output, .. } => {
            assert_eq!(output, &storage.proxy_path(id, "flac"));
        }
        other => panic!("unexpected {other:?}"),
    }
    for job in &jobs {
        let rebuilt = rebuild_job_spec(job.kind(), &job.payload()).unwrap();
        assert_eq!(rebuilt.payload(), job.payload());
        assert_eq!(rebuilt.kind(), job.kind());
    }
}

#[test]
fn video_and_image_imports() {
    let storage = CacheStorage::new("/cache");
    let id = AssetId::from_parts(1, 1, 1);
    let video = MediaInfo::new(id, "/media/clip.mp4", MediaType::Video);
    let jobs = plan_import_jobs(&video, &storage, 1024, "0.5", (160, 90));
    assert_eq!(jobs.iter().map(|j| j.kind()).collect::<Vec<_>>(), vec!["thumbnails", "video_proxy"]);
    let image = MediaInfo::new(id, "/media/photo.png", MediaType::Image);
    assert!(plan_import_jobs(&image, &storage, 1024, "0.5", (160, 90)).is_empty());
    let audio_without_stream = MediaInfo::new(id, "/media/a.wav", MediaType::Audio);
    match &plan_import_jobs(&audio_without_stream, &storage, 512, "1", (1, 1))[0] {
        JobSpec::Waveform { sample_rate, .. } => assert_eq!(*sample_rate, 48_000),
        other => panic!("unexpected {other:?}"),
    }
}

#[test]
fn thumbnail_interval_must_be_number_text() {
    assert!(rebuild_job_spec("thumbnails", "/a.mp4\u{1}half\u{1}320\u{1}180").is_none());
    match rebuild_job_spec("thumbnails", "/a.mp4\u{1}0.25\u{1}320\u{1}180") {
        Some(JobSpec::Thumbnails { interval, width, height, .. }) => {
            assert_eq!(interval, "0.25");
            assert_eq!((width, height), (320, 180));
        }
        other => panic!("unexpected {other:?}"),
    }
}
