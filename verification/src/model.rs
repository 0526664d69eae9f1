//! Identity, classification and error types shared by every layer.

use vstd::prelude::*;

verus! {

/// Types of cache entries.
#[derive(Debug, Clone, Copy, PartialEq, Eq, Structural, Hash)]
pub enum CacheType {
    /// Waveform peaks (audio).
    WaveformPeaks,
    /// Video thumbnails.
    VideoThumbnails,
    /// Video proxy file.
    VideoProxy,
    /// Audio proxy file.
    AudioProxy,
}

/// Wire tag of a cache type.
pub open spec fn cache_type_tag(c: CacheType) -> u8 {
    match c {
        CacheType::WaveformPeaks => 0,
        CacheType::VideoThumbnails => 1,
        CacheType::VideoProxy => 2,
        CacheType::AudioProxy => 3,
    }
}

/// Cache type named by a wire tag, if any.
pub open spec fn cache_type_from_tag(tag: u8) -> Option<CacheType> {
    if tag == 0 {
        Some(CacheType::WaveformPeaks)
    } else if tag == 1 {
        Some(CacheType::VideoThumbnails)
    } else if tag == 2 {
        Some(CacheType::VideoProxy)
    } else if tag == 3 {
        Some(CacheType::AudioProxy)
    } else {
        None
    }
}

impl CacheType {
    /// Stable wire tag (used in keys and rows).
    pub fn as_u8(self) -> (r: u8)
        ensures
            r == cache_type_tag(self),
    {
        match self {
            CacheType::WaveformPeaks => 0,
            CacheType::VideoThumbnails => 1,
            CacheType::VideoProxy => 2,
            CacheType::AudioProxy => 3,
        }
    }

    /// Inverse of [`CacheType::as_u8`]; returns `None` for unknown tags.
    pub fn from_u8(tag: u8) -> (r: Option<CacheType>)
        ensures
            r == cache_type_from_tag(tag),
    {
        match tag {
            0 => Some(CacheType::WaveformPeaks),
            1 => Some(CacheType::VideoThumbnails),
            2 => Some(CacheType::VideoProxy),
            3 => Some(CacheType::AudioProxy),
            _ => None,
        }
    }

    /// Display name (`"waveform_peaks"`, `"video_thumbnails"`, ...).
    pub fn name(self) -> (r: &'static str)
        ensures
            r@ == cache_type_name(self)@,
    {
        match self {
            CacheType::WaveformPeaks => "waveform_peaks",
            CacheType::VideoThumbnails => "video_thumbnails",
            CacheType::VideoProxy => "video_proxy",
            CacheType::AudioProxy => "audio_proxy",
        }
    }

    /// Display name as an owned string.
    pub fn to_string(&self) -> (r: String)
        ensures
            r@ == cache_type_name(*self)@,
    {
        String::from_str(self.name())
    }
}

/// The display name of a cache type.
pub open spec fn cache_type_name(c: CacheType) -> &'static str {
    match c {
        CacheType::WaveformPeaks => "waveform_peaks",
        CacheType::VideoThumbnails => "video_thumbnails",
        CacheType::VideoProxy => "video_proxy",
        CacheType::AudioProxy => "audio_proxy",
    }
}

/// Decoding a cache type's tag gives the cache type back.
pub proof fn lemma_cache_type_tag_roundtrip(c: CacheType)
    ensures
        cache_type_from_tag(cache_type_tag(c)) == Some(c),
{
}

/// Every tag that decodes re-encodes to itself; exactly the tags below 4 decode.
pub proof fn lemma_cache_type_tag_inverse(tag: u8)
    ensures
        cache_type_from_tag(tag) is Some <==> tag < 4,
        cache_type_from_tag(tag) matches Some(c) ==> cache_type_tag(c) == tag,
{
}

/// Lifecycle state of a pipeline job.
#[derive(Debug, Clone, Copy, PartialEq, Eq, Structural, Hash)]
pub enum JobState {
    /// Queued, not yet started.
    Pending,
    /// Currently executing on a worker.
    Running,
    /// Finished successfully.
    Completed,
    /// Finished with an error.
    Failed,
    /// Cancelled before or during execution.
    Cancelled,
}

/// Wire tag of a job state.
pub open spec fn job_state_tag(s: JobState) -> u8 {
    match s {
        JobState::Pending => 0,
        JobState::Running => 1,
        JobState::Completed => 2,
        JobState::Failed => 3,
        JobState::Cancelled => 4,
    }
}

/// Job state named by a wire tag, if any.
pub open spec fn job_state_from_tag(tag: u8) -> Option<JobState> {
    if tag == 0 {
        Some(JobState::Pending)
    } else if tag == 1 {
        Some(JobState::Running)
    } else if tag == 2 {
        Some(JobState::Completed)
    } else if tag == 3 {
        Some(JobState::Failed)
    } else if tag == 4 {
        Some(JobState::Cancelled)
    } else {
        None
    }
}

/// A state is terminal when the job can no longer change.
pub open spec fn job_state_terminal(s: JobState) -> bool {
    s is Completed || s is Failed || s is Cancelled
}

impl JobState {
    /// Stable wire tag.
    pub fn as_u8(self) -> (r: u8)
        ensures
            r == job_state_tag(self),
    {
        match self {
            JobState::Pending => 0,
            JobState::Running => 1,
            JobState::Completed => 2,
            JobState::Failed => 3,
            JobState::Cancelled => 4,
        }
    }

    /// Inverse of [`JobState::as_u8`]; returns `None` for unknown tags.
    pub fn from_u8(tag: u8) -> (r: Option<JobState>)
        ensures
            r == job_state_from_tag(tag),
    {
        match tag {
            0 => Some(JobState::Pending),
            1 => Some(JobState::Running),
            2 => Some(JobState::Completed),
            3 => Some(JobState::Failed),
            4 => Some(JobState::Cancelled),
            _ => None,
        }
    }

    /// True once the job has reached a final state.
    pub fn is_terminal(self) -> (r: bool)
        ensures
            r == job_state_terminal(self),
    {
        match self {
            JobState::Completed | JobState::Failed | JobState::Cancelled => true,
            _ => false,
        }
    }
}

/// Decoding a job state's tag gives the state back.
pub proof fn lemma_job_state_tag_roundtrip(s: JobState)
    ensures
        job_state_from_tag(job_state_tag(s)) == Some(s),
{
}

/// Every tag that decodes re-encodes to itself; exactly the tags below 5 decode.
pub proof fn lemma_job_state_tag_inverse(tag: u8)
    ensures
        job_state_from_tag(tag) is Some <==> tag < 5,
        job_state_from_tag(tag) matches Some(s) ==> job_state_tag(s) == tag,
{
}

/// Queue priority; a higher rank is dispatched first.
#[derive(Debug, Clone, Copy, PartialEq, Eq, Structural, Hash, PartialOrd, Ord)]
pub enum Priority {
    /// Background work.
    Low,
    /// Default priority.
    Normal,
    /// Interactive work (e.g. waveforms).
    High,
    /// Jumps every queue.
    Critical,
}

/// Rank (and wire tag) of a priority: `Low` 0 up to `Critical` 3.
pub open spec fn priority_rank(p: Priority) -> u8 {
    match p {
        Priority::Low => 0,
        Priority::Normal => 1,
        Priority::High => 2,
        Priority::Critical => 3,
    }
}

/// Priority named by a wire tag, if any.
pub open spec fn priority_from_tag(tag: u8) -> Option<Priority> {
    if tag == 0 {
        Some(Priority::Low)
    } else if tag == 1 {
        Some(Priority::Normal)
    } else if tag == 2 {
        Some(Priority::High)
    } else if tag == 3 {
        Some(Priority::Critical)
    } else {
        None
    }
}

impl Priority {
    /// Stable wire tag, equal to the rank.
    pub fn as_u8(self) -> (r: u8)
        ensures
            r == priority_rank(self),
    {
        match self {
            Priority::Low => 0,
            Priority::Normal => 1,
            Priority::High => 2,
            Priority::Critical => 3,
        }
    }

    /// Inverse of [`Priority::as_u8`]; returns `None` for unknown tags.
    pub fn from_u8(tag: u8) -> (r: Option<Priority>)
        ensures
            r == priority_from_tag(tag),
    {
        match tag {
            0 => Some(Priority::Low),
            1 => Some(Priority::Normal),
            2 => Some(Priority::High),
            3 => Some(Priority::Critical),
            _ => None,
        }
    }
}

/// Decoding a priority's tag gives the priority back.
pub proof fn lemma_priority_tag_roundtrip(p: Priority)
    ensures
        priority_from_tag(priority_rank(p)) == Some(p),
        priority_rank(p) < 4,
{
}

/// Kind of media an asset holds.
#[derive(Debug, Clone, Copy, PartialEq, Eq, Structural, Hash)]
pub enum MediaType {
    /// Video (possibly with audio).
    Video,
    /// Audio only.
    Audio,
    /// Still image.
    Image,
}

/// Wire tag of a media type.
pub open spec fn media_type_tag(m: MediaType) -> u8 {
    match m {
        MediaType::Video => 0,
        MediaType::Audio => 1,
        MediaType::Image => 2,
    }
}

/// Media type named by a wire tag, if any.
pub open spec fn media_type_from_tag(tag: u8) -> Option<MediaType> {
    if tag == 0 {
        Some(MediaType::Video)
    } else if tag == 1 {
        Some(MediaType::Audio)
    } else if tag == 2 {
        Some(MediaType::Image)
    } else {
        None
    }
}

impl MediaType {
    /// Stable wire tag.
    pub fn as_u8(self) -> (r: u8)
        ensures
            r == media_type_tag(self),
    {
        match self {
            MediaType::Video => 0,
            MediaType::Audio => 1,
            MediaType::Image => 2,
        }
    }

    /// Inverse of [`MediaType::as_u8`]; returns `None` for unknown tags.
    pub fn from_u8(tag: u8) -> (r: Option<MediaType>)
        ensures
            r == media_type_from_tag(tag),
    {
        match tag {
            0 => Some(MediaType::Video),
            1 => Some(MediaType::Audio),
            2 => Some(MediaType::Image),
            _ => None,
        }
    }
}

/// Decoding a media type's tag gives the media type back.
pub proof fn lemma_media_type_tag_roundtrip(m: MediaType)
    ensures
        media_type_from_tag(media_type_tag(m)) == Some(m),
{
}

/// Unique job identifier.
#[derive(Debug, Clone, Copy, PartialEq, Eq, Structural, Hash, PartialOrd, Ord)]
pub struct JobId(pub u64);

/// Failures across the engine.
#[derive(Debug)]
pub enum AssetError {
    /// Filesystem failure (message of the underlying error).
    Io(String),
    /// Storage / corrupt row failure.
    Db(String),
    /// Invalid input or parameters.
    Validation(String),
    /// Decode / encode failure.
    Codec(String),
    /// Cooperative cancellation was requested.
    Cancelled,
    /// No job with this id is known.
    JobNotFound(u64),
    /// The file does not exist.
    NotFound(String),
    /// No decoder recognizes the file.
    UnsupportedFormat(String),
    /// The pipeline is shutting down.
    ChannelClosed,
}

impl AssetError {
    /// A validation error with the given message.
    pub fn validation(msg: &str) -> (r: AssetError)
        ensures
            r matches AssetError::Validation(m) && m@ == msg@,
    {
        AssetError::Validation(String::from_str(msg))
    }

    /// A codec error with the given message.
    pub fn codec(msg: &str) -> (r: AssetError)
        ensures
            r matches AssetError::Codec(m) && m@ == msg@,
    {
        AssetError::Codec(String::from_str(msg))
    }

    /// A storage error with the given message.
    pub fn db(msg: &str) -> (r: AssetError)
        ensures
            r matches AssetError::Db(m) && m@ == msg@,
    {
        AssetError::Db(String::from_str(msg))
    }
}

} // verus!
