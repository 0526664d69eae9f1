//! Background jobs as data: what each job does, the text it is persisted
//! as for crash recovery, how it is rebuilt from that text, and which jobs
//! an import schedules.
//!
//! A persisted payload is the job's fields joined with the unit separator;
//! numbers are written in decimal. The thumbnail interval travels as the
//! text of the number of seconds.

use vstd::prelude::*;

use crate::asset::{spec_asset_hash, AssetId, MediaInfo, MediaInfoView};
use crate::model::{MediaType, Priority};
use crate::profile::{preset_1080p_low, preset_audio_flac, ProxyProfile, ProxyProfileView};
use crate::storage::{path_join, spec_namespace, spec_proxy_path, CacheStorage};
use crate::text::{
    dec_digits,
    field_sep,
    fmt_dec,
    hex16,
    is_float_text,
    lemma_float_text_clean,
    hex_char,
    join_fields,
    join_with,
    lemma_parse_dec,
    lemma_split_join,
    nibble,
    parse_u32,
    spec_is_float_text,
    spec_parse_unsigned,
    split_fields,
    split_on,
};

verus! {

broadcast use vstd::seq::group_seq_axioms;

/// Sample rate assumed for waveforms when the probe found none.
pub const DEFAULT_SAMPLE_RATE: u32 = 48_000;

/// A background job's parameters.
#[derive(Debug)]
pub enum JobSpec {
    /// Generate waveform peaks for an audio file.
    Waveform { audio_path: String, chunk_size: u32, sample_rate: u32 },
    /// Extract thumbnails from a video file every `interval` seconds.
    Thumbnails { video_path: String, interval: String, width: u32, height: u32 },
    /// Render a video proxy.
    VideoProxy { video_path: String, output: String, profile: ProxyProfile },
    /// Render an audio proxy.
    AudioProxy { audio_path: String, output: String, profile: ProxyProfile },
}

/// Abstract job parameters.
pub enum JobSpecView {
    Waveform { audio_path: Seq<char>, chunk_size: u32, sample_rate: u32 },
    Thumbnails { video_path: Seq<char>, interval: Seq<char>, width: u32, height: u32 },
    VideoProxy { video_path: Seq<char>, output: Seq<char>, profile: ProxyProfileView },
    AudioProxy { audio_path: Seq<char>, output: Seq<char>, profile: ProxyProfileView },
}

impl View for JobSpec {
    type V = JobSpecView;

    open spec fn view(&self) -> JobSpecView {
        match self {
            JobSpec::Waveform { audio_path, chunk_size, sample_rate } => JobSpecView::Waveform {
                audio_path: audio_path@,
                chunk_size: *chunk_size,
                sample_rate: *sample_rate,
            },
            JobSpec::Thumbnails { video_path, interval, width, height } => JobSpecView::Thumbnails {
                video_path: video_path@,
                interval: interval@,
                width: *width,
                height: *height,
            },
            JobSpec::VideoProxy { video_path, output, profile } => JobSpecView::VideoProxy {
                video_path: video_path@,
                output: output@,
                profile: profile@,
            },
            JobSpec::AudioProxy { audio_path, output, profile } => JobSpecView::AudioProxy {
                audio_path: audio_path@,
                output: output@,
                profile: profile@,
            },
        }
    }
}

/// The kind tag a job is persisted under.
pub open spec fn spec_kind(j: JobSpecView) -> Seq<char> {
    match j {
        JobSpecView::Waveform { .. } => "waveform"@,
        JobSpecView::Thumbnails { .. } => "thumbnails"@,
        JobSpecView::VideoProxy { .. } => "video_proxy"@,
        JobSpecView::AudioProxy { .. } => "audio_proxy"@,
    }
}

/// The priority a job runs at: waveforms are interactive, the rest normal.
pub open spec fn spec_priority(j: JobSpecView) -> Priority {
    match j {
        JobSpecView::Waveform { .. } => Priority::High,
        _ => Priority::Normal,
    }
}

/// The fields a job is persisted as.
pub open spec fn spec_fields(j: JobSpecView) -> Seq<Seq<char>> {
    match j {
        JobSpecView::Waveform { audio_path, chunk_size, sample_rate } => seq![
            audio_path,
            dec_digits(chunk_size as nat),
            dec_digits(sample_rate as nat),
        ],
        JobSpecView::Thumbnails { video_path, interval, width, height } => seq![
            video_path,
            interval,
            dec_digits(width as nat),
            dec_digits(height as nat),
        ],
        JobSpecView::VideoProxy { video_path, output, profile } => seq![
            video_path,
            output,
            profile.name,
        ],
        JobSpecView::AudioProxy { audio_path, output, profile } => seq![
            audio_path,
            output,
            profile.name,
        ],
    }
}

/// The payload text a job is persisted as.
pub open spec fn spec_payload(j: JobSpecView) -> Seq<char> {
    join_with(spec_fields(j), field_sep())
}

/// Field `i` of a split payload, empty when missing.
pub open spec fn field_at(fs: Seq<Seq<char>>, i: int) -> Seq<char> {
    if 0 <= i < fs.len() {
        fs[i]
    } else {
        Seq::empty()
    }
}

/// The job a persisted kind and payload describe, if any: unknown kinds and
/// numbers that do not parse (sizes as `u32`, the interval as `f64`) give
/// none. Proxies are rebuilt with their standard presets.
pub open spec fn spec_rebuild(kind: Seq<char>, payload: Seq<char>) -> Option<JobSpecView> {
    let fs = split_on(payload, field_sep());
    let max = u32::MAX as nat;
    if kind == "waveform"@ {
        match (spec_parse_unsigned(field_at(fs, 1), max), spec_parse_unsigned(field_at(fs, 2), max)) {
            (Some(c), Some(r)) => Some(
                JobSpecView::Waveform {
                    audio_path: field_at(fs, 0),
                    chunk_size: c as u32,
                    sample_rate: r as u32,
                },
            ),
            _ => None,
        }
    } else if kind == "thumbnails"@ {
        match (spec_parse_unsigned(field_at(fs, 2), max), spec_parse_unsigned(field_at(fs, 3), max)) {
            (Some(w), Some(h)) => if !spec_is_float_text(field_at(fs, 1)) {
                None
            } else {
                Some(
                    JobSpecView::Thumbnails {
                        video_path: field_at(fs, 0),
                        interval: field_at(fs, 1),
                        width: w as u32,
                        height: h as u32,
                    },
                )
            },
            _ => None,
        }
    } else if kind == "video_proxy"@ {
        Some(
            JobSpecView::VideoProxy {
                video_path: field_at(fs, 0),
                output: field_at(fs, 1),
                profile: preset_1080p_low(),
            },
        )
    } else if kind == "audio_proxy"@ {
        Some(
            JobSpecView::AudioProxy {
                audio_path: field_at(fs, 0),
                output: field_at(fs, 1),
                profile: preset_audio_flac(),
            },
        )
    } else {
        None
    }
}

/// The jobs an import of `info` schedules: waveform and audio proxy for
/// audio, thumbnails and video proxy for video, nothing for stills.
pub open spec fn spec_plan(
    info: MediaInfoView,
    root: Seq<char>,
    chunk_size: u32,
    interval: Seq<char>,
    resolution: (u32, u32),
) -> Seq<JobSpecView> {
    match info.media_type {
        MediaType::Audio => seq![
            JobSpecView::Waveform {
                audio_path: info.path,
                chunk_size,
                sample_rate: match info.audio {
                    Some(a) => a.sample_rate,
                    None => DEFAULT_SAMPLE_RATE,
                },
            },
            JobSpecView::AudioProxy {
                audio_path: info.path,
                output: spec_proxy_path(root, info.id, "flac"@),
                profile: preset_audio_flac(),
            },
        ],
        MediaType::Video => seq![
            JobSpecView::Thumbnails {
                video_path: info.path,
                interval,
                width: resolution.0,
                height: resolution.1,
            },
            JobSpecView::VideoProxy {
                video_path: info.path,
                output: spec_proxy_path(root, info.id, "mp4"@),
                profile: preset_1080p_low(),
            },
        ],
        MediaType::Image => Seq::empty(),
    }
}

/// What an import plans, field by field: a video gets a thumbnail job at
/// exactly the configured interval and `(width, height)` and a video proxy
/// job, both reading the asset's file; an audio asset gets a waveform job
/// at the configured chunk size and the stream's sample rate (48 kHz when
/// the rate is unknown) and an audio proxy job; a still image gets none.
pub proof fn lemma_plan_fields(
    info: MediaInfoView,
    root: Seq<char>,
    chunk_size: u32,
    interval: Seq<char>,
    resolution: (u32, u32),
)
    ensures
        ({
            let plan = spec_plan(info, root, chunk_size, interval, resolution);
            &&& info.media_type == MediaType::Video ==> {
                &&& plan.len() == 2
                &&& plan[0] matches JobSpecView::Thumbnails { video_path, interval: iv, width, height }
                    && video_path == info.path && iv == interval && width == resolution.0 && height
                    == resolution.1
                &&& plan[1] matches JobSpecView::VideoProxy { video_path, output, .. } && video_path
                    == info.path && output == spec_proxy_path(root, info.id, "mp4"@)
            }
            &&& info.media_type == MediaType::Audio ==> {
                &&& plan.len() == 2
                &&& plan[0] matches JobSpecView::Waveform { audio_path, chunk_size: cs, sample_rate }
                    && audio_path == info.path && cs == chunk_size && sample_rate == (match info.audio {
                    Some(a) => a.sample_rate,
                    None => 48_000u32,
                })
                &&& plan[1] matches JobSpecView::AudioProxy { audio_path, output, .. } && audio_path
                    == info.path && output == spec_proxy_path(root, info.id, "flac"@)
            }
            &&& info.media_type == MediaType::Image ==> plan.len() == 0
        }),
{
}

/// Field `i` of `fields`, or the empty string when missing.
fn field_str(fields: &Vec<String>, i: usize) -> (r: &str)
    ensures
        r@ == field_at(fields@.map_values(|f: String| f@), i as int),
{
    proof {
        reveal_strlit("");
    }
    if i < fields.len() {
        fields[i].as_str()
    } else {
        ""
    }
}

/// Whether `s` is exactly `lit`.
fn text_is(s: &str, lit: &str) -> (r: bool)
    ensures
        r == (s@ == lit@),
{
    String::from_str(s) == String::from_str(lit)
}

impl JobSpec {
    /// Job kind tag, persisted for crash recovery.
    pub fn kind(&self) -> (r: &'static str)
        ensures
            r@ == spec_kind(self@),
    {
        match self {
            JobSpec::Waveform { .. } => "waveform",
            JobSpec::Thumbnails { .. } => "thumbnails",
            JobSpec::VideoProxy { .. } => "video_proxy",
            JobSpec::AudioProxy { .. } => "audio_proxy",
        }
    }

    /// Priority the job runs at.
    pub fn priority(&self) -> (r: Priority)
        ensures
            r == spec_priority(self@),
    {
        match self {
            JobSpec::Waveform { .. } => Priority::High,
            _ => Priority::Normal,
        }
    }

    /// Parameters needed to rebuild this job after a crash.
    pub fn payload(&self) -> (r: String)
        ensures
            r@ == spec_payload(self@),
    {
        let mut fields: Vec<String> = Vec::new();
        match self {
            JobSpec::Waveform { audio_path, chunk_size, sample_rate } => {
                fields.push(audio_path.clone());
                fields.push(fmt_dec(*chunk_size as u64));
                fields.push(fmt_dec(*sample_rate as u64));
            },
            JobSpec::Thumbnails { video_path, interval, width, height } => {
                fields.push(video_path.clone());
                fields.push(interval.clone());
                fields.push(fmt_dec(*width as u64));
                fields.push(fmt_dec(*height as u64));
            },
            JobSpec::VideoProxy { video_path, output, profile } => {
                fields.push(video_path.clone());
                fields.push(output.clone());
                fields.push(profile.name.clone());
            },
            JobSpec::AudioProxy { audio_path, output, profile } => {
                fields.push(audio_path.clone());
                fields.push(output.clone());
                fields.push(profile.name.clone());
            },
        }
        proof {
            assert(fields@.map_values(|f: String| f@) =~= spec_fields(self@));
        }
        join_fields(&fields)
    }
}

/// Rebuilds a job from its persisted kind and payload: the crash-recovery
/// path. Returns `None` for unknown kinds or numbers that do not parse.
pub fn rebuild_job_spec(kind: &str, payload: &str) -> (r: Option<JobSpec>)
    ensures
        match r {
            Some(j) => spec_rebuild(kind@, payload@) == Some(j@),
            None => spec_rebuild(kind@, payload@) is None,
        },
{
    let fields = split_fields(payload);
    let ghost fs = split_on(payload@, field_sep());
    proof {
        assert(fields@.map_values(|f: String| f@) =~= fs);
    }
    if text_is(kind, "waveform") {
        let c = parse_u32(field_str(&fields, 1));
        let r = parse_u32(field_str(&fields, 2));
        match (c, r) {
            (Some(c), Some(r)) => Some(
                JobSpec::Waveform {
                    audio_path: String::from_str(field_str(&fields, 0)),
                    chunk_size: c,
                    sample_rate: r,
                },
            ),
            _ => None,
        }
    } else if text_is(kind, "thumbnails") {
        let w = parse_u32(field_str(&fields, 2));
        let h = parse_u32(field_str(&fields, 3));
        match (w, h) {
            (Some(w), Some(h)) => if !is_float_text(field_str(&fields, 1)) {
                None
            } else {
                Some(
                    JobSpec::Thumbnails {
                        video_path: String::from_str(field_str(&fields, 0)),
                        interval: String::from_str(field_str(&fields, 1)),
                        width: w,
                        height: h,
                    },
                )
            },
            _ => None,
        }
    } else if text_is(kind, "video_proxy") {
        Some(
            JobSpec::VideoProxy {
                video_path: String::from_str(field_str(&fields, 0)),
                output: String::from_str(field_str(&fields, 1)),
                profile: ProxyProfile::proxy_1080p_low(),
            },
        )
    } else if text_is(kind, "audio_proxy") {
        Some(
            JobSpec::AudioProxy {
                audio_path: String::from_str(field_str(&fields, 0)),
                output: String::from_str(field_str(&fields, 1)),
                profile: ProxyProfile::audio_proxy_flac(),
            },
        )
    } else {
        None
    }
}

/// The jobs an import of `info` schedules, in submission order.
pub fn plan_import_jobs(
    info: &MediaInfo,
    storage: &CacheStorage,
    chunk_size: u32,
    thumbnail_interval: &str,
    thumbnail_resolution: (u32, u32),
) -> (r: Vec<JobSpec>)
    requires
        spec_is_float_text(thumbnail_interval@),
    ensures
        r@.map_values(|j: JobSpec| j@) == spec_plan(
            info@,
            storage@,
            chunk_size,
            thumbnail_interval@,
            thumbnail_resolution,
        ),
{
    let mut jobs: Vec<JobSpec> = Vec::new();
    match info.media_type {
        MediaType::Audio => {
            let sample_rate = match &info.audio {
                Some(a) => a.sample_rate,
                None => DEFAULT_SAMPLE_RATE,
            };
            jobs.push(
                JobSpec::Waveform { audio_path: info.path.clone(), chunk_size, sample_rate },
            );
            jobs.push(
                JobSpec::AudioProxy {
                    audio_path: info.path.clone(),
                    output: storage.proxy_path(info.id, "flac"),
                    profile: ProxyProfile::audio_proxy_flac(),
                },
            );
        },
        MediaType::Video => {
            jobs.push(
                JobSpec::Thumbnails {
                    video_path: info.path.clone(),
                    interval: String::from_str(thumbnail_interval),
                    width: thumbnail_resolution.0,
                    height: thumbnail_resolution.1,
                },
            );
            jobs.push(
                JobSpec::VideoProxy {
                    video_path: info.path.clone(),
                    output: storage.proxy_path(info.id, "mp4"),
                    profile: ProxyProfile::proxy_1080p_low(),
                },
            );
        },
        MediaType::Image => {},
    }
    proof {
        assert(jobs@.map_values(|j: JobSpec| j@) =~= spec_plan(
            info@,
            storage@,
            chunk_size,
            thumbnail_interval@,
            thumbnail_resolution,
        ));
    }
    jobs
}

/// Decimal text never holds the separator.
proof fn lemma_dec_clean(v: nat)
    ensures
        !dec_digits(v).contains(field_sep()),
    decreases v,
{
    if v >= 10 {
        lemma_dec_clean(v / 10);
        let d = dec_digits(v);
        if d.contains(field_sep()) {
            let i = choose|i: int| 0 <= i < d.len() && d[i] == field_sep();
            if i < d.len() - 1 {
                assert(d[i] == dec_digits(v / 10)[i]);
            }
        }
    }
}

/// A persisted job rebuilds to itself, when none of its paths holds the
/// separator, a thumbnail interval is number text, and proxies use the
/// standard presets.
pub proof fn lemma_rebuild_payload(j: JobSpecView)
    requires
        match j {
            JobSpecView::Waveform { audio_path, .. } => !audio_path.contains(field_sep()),
            JobSpecView::Thumbnails { video_path, interval, .. } => !video_path.contains(field_sep())
                && spec_is_float_text(interval),
            JobSpecView::VideoProxy { video_path, output, profile } => !video_path.contains(
                field_sep(),
            ) && !output.contains(field_sep()) && profile == preset_1080p_low(),
            JobSpecView::AudioProxy { audio_path, output, profile } => !audio_path.contains(
                field_sep(),
            ) && !output.contains(field_sep()) && profile == preset_audio_flac(),
        },
    ensures
        spec_rebuild(spec_kind(j), spec_payload(j)) == Some(j),
{
    reveal_strlit("waveform");
    reveal_strlit("thumbnails");
    reveal_strlit("video_proxy");
    reveal_strlit("audio_proxy");
    reveal_strlit("1080p Low");
    reveal_strlit("Audio Proxy (FLAC)");
    let fs = spec_fields(j);
    assert forall|i: int| 0 <= i < fs.len() implies !(#[trigger] fs[i]).contains(field_sep()) by {
        match j {
            JobSpecView::Waveform { chunk_size, sample_rate, .. } => {
                lemma_dec_clean(chunk_size as nat);
                lemma_dec_clean(sample_rate as nat);
            },
            JobSpecView::Thumbnails { interval, width, height, .. } => {
                lemma_float_text_clean(interval);
                lemma_dec_clean(width as nat);
                lemma_dec_clean(height as nat);
            },
            JobSpecView::VideoProxy { .. } => {
                if i == 2 && fs[i].contains(field_sep()) {
                    let k = choose|k: int| 0 <= k < fs[i].len() && fs[i][k] == field_sep();
                    assert(fs[i] == "1080p Low"@);
                }
            },
            JobSpecView::AudioProxy { .. } => {
                if i == 2 && fs[i].contains(field_sep()) {
                    let k = choose|k: int| 0 <= k < fs[i].len() && fs[i][k] == field_sep();
                    assert(fs[i] == "Audio Proxy (FLAC)"@);
                }
            },
        }
    }
    lemma_split_join(fs, field_sep());
    let max = u32::MAX as nat;
    match j {
        JobSpecView::Waveform { chunk_size, sample_rate, .. } => {
            lemma_parse_dec(chunk_size as nat, 0, max);
            lemma_parse_dec(sample_rate as nat, 0, max);
        },
        JobSpecView::Thumbnails { width, height, .. } => {
            assert("thumbnails"@[0] != "waveform"@[0]);
            lemma_parse_dec(width as nat, 0, max);
            lemma_parse_dec(height as nat, 0, max);
        },
        JobSpecView::VideoProxy { .. } => {
            assert("video_proxy"@[0] != "waveform"@[0]);
            assert("video_proxy"@ != "thumbnails"@);
        },
        JobSpecView::AudioProxy { .. } => {
            assert("audio_proxy"@[0] != "waveform"@[0]);
            assert("audio_proxy"@[0] != "thumbnails"@[0]);
            assert("audio_proxy"@[0] != "video_proxy"@[0]);
        },
    }
}


/// The characters of a literal, none of which is the separator.
proof fn lemma_lit_clean(s: Seq<char>)
    requires
        forall|i: int| 0 <= i < s.len() ==> (#[trigger] s[i]) != field_sep(),
    ensures
        !s.contains(field_sep()),
{
}

/// Text made of pieces without the separator has none.
proof fn lemma_concat_clean(a: Seq<char>, b: Seq<char>)
    requires
        !a.contains(field_sep()),
        !b.contains(field_sep()),
    ensures
        !(a + b).contains(field_sep()),
{
    if (a + b).contains(field_sep()) {
        let i = choose|i: int| 0 <= i < (a + b).len() && (a + b)[i] == field_sep();
        if i < a.len() {
            assert(a[i] == (a + b)[i]);
        } else {
            assert(b[i - a.len()] == (a + b)[i]);
        }
    }
}

/// A proxy path under a root without separators has none.
proof fn lemma_proxy_path_clean(root: Seq<char>, id: AssetId, ext: Seq<char>)
    requires
        !root.contains(field_sep()),
        !ext.contains(field_sep()),
    ensures
        !spec_proxy_path(root, id, ext).contains(field_sep()),
{
    reveal_strlit("proxies");
    reveal_strlit("_proxy.");
    lemma_lit_clean("proxies"@);
    lemma_lit_clean("_proxy."@);
    lemma_lit_clean(seq!['/']);
    let h = hex16(spec_asset_hash(id));
    assert forall|i: int| 0 <= i < h.len() implies (#[trigger] h[i]) != field_sep() by {
        let x = nibble(spec_asset_hash(id), i);
        let hv = spec_asset_hash(id);
        let sh = ((15 - i) * 4) as u64;
        assert(x < 16) by (bit_vector)
            requires
                x == (hv >> sh) & 0xf,
        ;
        let d = x as nat;
        assert(h[i] == hex_char(d));
        assert(hex_char(d) as int == if d < 10 {
            48 + d
        } else {
            87 + d
        });
    }
    lemma_lit_clean(h);
    let dir = path_join(root, "proxies"@);
    assert(!dir.contains(field_sep())) by {
        if root.len() == 0 {
        } else if root.last() == '/' {
            lemma_concat_clean(root, "proxies"@);
        } else {
            assert(root.push('/') =~= root + seq!['/']);
            lemma_concat_clean(root, seq!['/']);
            lemma_concat_clean(root.push('/'), "proxies"@);
        }
    }
    let name = spec_namespace(id) + "_proxy."@ + ext;
    lemma_concat_clean(spec_namespace(id), "_proxy."@);
    lemma_concat_clean(spec_namespace(id) + "_proxy."@, ext);
    assert(dir.len() > 0);
    if dir.last() == '/' {
        lemma_concat_clean(dir, name);
    } else {
        assert(dir.push('/') =~= dir + seq!['/']);
        lemma_concat_clean(dir, seq!['/']);
        lemma_concat_clean(dir.push('/'), name);
    }
}

/// Crash recovery restores what an import scheduled: every job planned
/// for an asset, once persisted, rebuilds to itself, provided the asset's
/// path and the cache root hold no separator (the interval is number text,
/// as planning requires).
pub proof fn lemma_planned_jobs_recoverable(
    info: MediaInfoView,
    root: Seq<char>,
    chunk_size: u32,
    interval: Seq<char>,
    resolution: (u32, u32),
)
    requires
        !info.path.contains(field_sep()),
        !root.contains(field_sep()),
        spec_is_float_text(interval),
    ensures
        forall|k: int|
            0 <= k < spec_plan(info, root, chunk_size, interval, resolution).len() ==> {
                let j = #[trigger] spec_plan(info, root, chunk_size, interval, resolution)[k];
                spec_rebuild(spec_kind(j), spec_payload(j)) == Some(j)
            },
{
    reveal_strlit("flac");
    reveal_strlit("mp4");
    lemma_lit_clean("flac"@);
    lemma_lit_clean("mp4"@);
    lemma_proxy_path_clean(root, info.id, "flac"@);
    lemma_proxy_path_clean(root, info.id, "mp4"@);
    let plan = spec_plan(info, root, chunk_size, interval, resolution);
    assert forall|k: int| 0 <= k < plan.len() implies spec_rebuild(
        spec_kind(#[trigger] plan[k]),
        spec_payload(plan[k]),
    ) == Some(plan[k]) by {
        lemma_rebuild_payload(plan[k]);
    }
}

} // verus!
