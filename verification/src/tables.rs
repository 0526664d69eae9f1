//! Row formats and key-range logic of the `jobs` and `cache_entries`
//! tables.
//!
//! A job row is: the asset key (length-prefixed), priority and state tags,
//! kind, progress (IEEE-754 bits), resume hint, payload, creation and update
//! times, and an optional error message. A cache-entry row is the cache
//! file path; its key is the 24-byte asset key followed by the cache type
//! tag, so an asset's entries form one contiguous key range.

use vstd::bytes::*;
use vstd::prelude::*;
use vstd::utf8::*;

use crate::asset::{asset_key, lemma_id_from_key_roundtrip, spec_id_from_key, spec_key_bytes, AssetId};
use crate::codec::{
    enc_bytes, enc_opt_str, enc_str, lemma_enc_str_len, lemma_sfx_bytes, lemma_sfx_opt_str,
    lemma_sfx_str, lemma_sfx_u64, lemma_sfx_u8, rd_bytes, rd_opt_str, rd_str, rd_u64, rd_u8,
    suffix, Dec, Enc,
};
use crate::model::{
    cache_type_from_tag, job_state_from_tag, job_state_tag, priority_from_tag, priority_rank,
    AssetError, CacheType, JobState, Priority,
};

verus! {

broadcast use vstd::seq::group_seq_axioms;

/// A persisted pipeline job record.
#[derive(Debug, Clone, PartialEq)]
pub struct JobRecord {
    /// Unique job id.
    pub job_id: u64,
    /// The asset this job processes.
    pub asset_id: AssetId,
    /// Queue priority.
    pub priority: Priority,
    /// Lifecycle state.
    pub state: JobState,
    /// Job kind (e.g. `"waveform"`, `"thumbnails"`, `"video_proxy"`).
    pub kind: String,
    /// Last reported completion fraction (`0.0..=1.0`, IEEE-754 bits).
    pub progress: u64,
    /// Generator-specific resume cursor (e.g. chunks already written).
    pub resume_hint: u64,
    /// Parameters needed to rebuild the job (job-kind specific encoding).
    pub payload: String,
    /// Record creation time (Unix ms).
    pub created_ms: u64,
    /// Last update time (Unix ms).
    pub updated_ms: u64,
    /// Error message when `state == JobState::Failed`.
    pub error: Option<String>,
}

/// Abstract job record.
pub struct JobRecordView {
    pub job_id: u64,
    pub asset_id: AssetId,
    pub priority: Priority,
    pub state: JobState,
    pub kind: Seq<char>,
    pub progress: u64,
    pub resume_hint: u64,
    pub payload: Seq<char>,
    pub created_ms: u64,
    pub updated_ms: u64,
    pub error: Option<Seq<char>>,
}

/// View of an optional string.
pub open spec fn opt_string_view(s: Option<String>) -> Option<Seq<char>> {
    match s {
        Some(x) => Some(x@),
        None => None,
    }
}

impl View for JobRecord {
    type V = JobRecordView;

    open spec fn view(&self) -> JobRecordView {
        JobRecordView {
            job_id: self.job_id,
            asset_id: self.asset_id,
            priority: self.priority,
            state: self.state,
            kind: self.kind@,
            progress: self.progress,
            resume_hint: self.resume_hint,
            payload: self.payload@,
            created_ms: self.created_ms,
            updated_ms: self.updated_ms,
            error: opt_string_view(self.error),
        }
    }
}

/// The leading part of a job row: asset key, tags, kind, progress, resume
/// hint, payload.
pub open spec fn enc_job_head(r: JobRecordView) -> Seq<u8> {
    enc_bytes(spec_key_bytes(r.asset_id)) + (seq![priority_rank(r.priority)] + (seq![
        job_state_tag(r.state),
    ] + (enc_str(r.kind) + (spec_u64_to_le_bytes(r.progress) + (spec_u64_to_le_bytes(
        r.resume_hint,
    ) + enc_str(r.payload))))))
}

/// The row of a job record whose update time is written as `updated`.
pub open spec fn spec_encode_job_row(r: JobRecordView, updated: u64) -> Seq<u8> {
    enc_job_head(r) + (spec_u64_to_le_bytes(r.created_ms) + (spec_u64_to_le_bytes(updated)
        + enc_opt_str(r.error)))
}

/// The record a row holds for the job id of its table key. Bytes after the
/// error field are ignored.
pub open spec fn spec_decode_job_record(job_id: u64, s: Seq<u8>) -> Option<JobRecordView> {
    match rd_bytes(s, 0) {
        None => None,
        Some((key, p1)) => if key.len() != 24 {
            None
        } else {
            match rd_u8(s, p1) {
                None => None,
                Some((ptag, p2)) => match priority_from_tag(ptag) {
                    None => None,
                    Some(priority) => match rd_u8(s, p2) {
                        None => None,
                        Some((stag, p3)) => match job_state_from_tag(stag) {
                            None => None,
                            Some(state) => match rd_str(s, p3) {
                                None => None,
                                Some((kind, p4)) => match rd_u64(s, p4) {
                                    None => None,
                                    Some((progress, p5)) => match rd_u64(s, p5) {
                                        None => None,
                                        Some((resume_hint, p6)) => match rd_str(s, p6) {
                                            None => None,
                                            Some((payload, p7)) => match rd_u64(s, p7) {
                                                None => None,
                                                Some((created_ms, p8)) => match rd_u64(s, p8) {
                                                    None => None,
                                                    Some((updated_ms, p9)) => match rd_opt_str(
                                                        s,
                                                        p9,
                                                    ) {
                                                        None => None,
                                                        Some((error, _p10)) => Some(
                                                            JobRecordView {
                                                                job_id,
                                                                asset_id: spec_id_from_key(key),
                                                                priority,
                                                                state,
                                                                kind,
                                                                progress,
                                                                resume_hint,
                                                                payload,
                                                                created_ms,
                                                                updated_ms,
                                                                error,
                                                            },
                                                        ),
                                                    },
                                                },
                                            },
                                        },
                                    },
                                },
                            },
                        },
                    },
                },
            }
        },
    }
}

/// Serializes a job record for the `jobs` table. The stored update time is
/// the later of the record's own and `now_ms` (the clock at write time).
pub fn encode_job_record(record: &JobRecord, now_ms: u64) -> (r: Vec<u8>)
    ensures
        r@ == spec_encode_job_row(
            record@,
            if record.updated_ms >= now_ms {
                record.updated_ms
            } else {
                now_ms
            },
        ),
{
    let updated = if record.updated_ms >= now_ms {
        record.updated_ms
    } else {
        now_ms
    };
    let mut row = Enc::new();
    write_job_head(&mut row, record);
    row.u64(record.created_ms);
    row.u64(updated);
    let ghost before = row@;
    match &record.error {
        Some(e) => row.opt_str(Some(e.as_str())),
        None => row.opt_str(None),
    }
    proof {
        assert(row@ == before + enc_opt_str(record@.error));
        assert(row@ =~= enc_job_head(record@) + (spec_u64_to_le_bytes(record.created_ms) + (
        spec_u64_to_le_bytes(updated) + enc_opt_str(record@.error))));
    }
    row.finish()
}

fn write_job_head(row: &mut Enc, record: &JobRecord)
    ensures
        final(row)@ == old(row)@ + enc_job_head(record@),
{
    let key = asset_key(&record.asset_id);
    row.bytes(key.as_slice());
    row.u8(record.priority.as_u8());
    row.u8(record.state.as_u8());
    row.str(record.kind.as_str());
    row.f64_bits(record.progress);
    row.u64(record.resume_hint);
    row.str(record.payload.as_str());
    proof {
        assert(row@ =~= old(row)@ + enc_job_head(record@));
    }
}

/// Deserializes a [`JobRecord`] (the job id comes from the table key).
///
/// # Errors
/// Returns [`AssetError::Db`] if the row is truncated or corrupt: a key
/// that is not 24 bytes, an unknown priority or state tag, or bad UTF-8.
pub fn decode_job_record(job_id: u64, data: &[u8]) -> (r: Result<JobRecord, AssetError>)
    ensures
        match spec_decode_job_record(job_id, data@) {
            Some(v) => r matches Ok(x) && x@ == v,
            None => r matches Err(AssetError::Db(_)),
        },
{
    let mut d = Dec::new(data);
    let key = d.bytes()?;
    let asset_id = AssetId::from_key_bytes(key)?;
    let priority = match Priority::from_u8(d.u8()?) {
        Some(p) => p,
        None => {
            return Err(AssetError::db("corrupt row: bad priority"));
        },
    };
    let state = match JobState::from_u8(d.u8()?) {
        Some(s) => s,
        None => {
            return Err(AssetError::db("corrupt row: bad job state"));
        },
    };
    let kind = d.str()?;
    let progress = d.f64_bits()?;
    let resume_hint = d.u64()?;
    let payload = d.str()?;
    let created_ms = d.u64()?;
    let updated_ms = d.u64()?;
    let error = d.opt_str()?;
    Ok(
        JobRecord {
            job_id,
            asset_id,
            priority,
            state,
            kind,
            progress,
            resume_hint,
            payload,
            created_ms,
            updated_ms,
            error,
        },
    )
}

/// Every string of the record fits the 32-bit length prefix.
pub open spec fn job_strings_fit(r: JobRecordView) -> bool {
    &&& encode_utf8(r.kind).len() <= u32::MAX
    &&& encode_utf8(r.payload).len() <= u32::MAX
    &&& (r.error matches Some(e) ==> encode_utf8(e).len() <= u32::MAX)
}

/// Decoding a job row gives back the record it was written from, with the
/// job id of the table key and the update time that was written.
#[verifier::rlimit(90)]
pub proof fn lemma_job_record_roundtrip(r: JobRecordView, job_id: u64, updated: u64)
    requires
        job_strings_fit(r),
    ensures
        spec_decode_job_record(job_id, spec_encode_job_row(r, updated)) == Some(
            JobRecordView {
                job_id,
                asset_id: r.asset_id,
                priority: r.priority,
                state: r.state,
                kind: r.kind,
                progress: r.progress,
                resume_hint: r.resume_hint,
                payload: r.payload,
                created_ms: r.created_ms,
                updated_ms: updated,
                error: r.error,
            },
        ),
{
    lemma_auto_spec_u64_to_from_le_bytes();
    lemma_enc_str_len(r.kind);
    lemma_enc_str_len(r.payload);
    lemma_id_from_key_roundtrip(r.asset_id);
    crate::asset::lemma_key_bytes_roundtrip(r.asset_id);
    let s = spec_encode_job_row(r, updated);
    let k = spec_key_bytes(r.asset_id);
    let e1 = enc_bytes(k);
    let e2 = seq![priority_rank(r.priority)];
    let e3 = seq![job_state_tag(r.state)];
    let e4 = enc_str(r.kind);
    let e5 = spec_u64_to_le_bytes(r.progress);
    let e6 = spec_u64_to_le_bytes(r.resume_hint);
    let e7 = enc_str(r.payload);
    let e8 = spec_u64_to_le_bytes(r.created_ms);
    let e9 = spec_u64_to_le_bytes(updated);
    let e10 = enc_opt_str(r.error);
    let empty = Seq::<u8>::empty();
    let t2 = e2 + (e3 + (e4 + (e5 + (e6 + (e7 + (e8 + (e9 + (e10 + empty))))))));
    assert(suffix(s, 0) =~= e1 + t2);
    lemma_sfx_bytes(s, 0, k, t2);
    let p1: int = 28;
    let t3 = e3 + (e4 + (e5 + (e6 + (e7 + (e8 + (e9 + (e10 + empty)))))));
    lemma_sfx_u8(s, p1, priority_rank(r.priority), t3);
    let t4 = e4 + (e5 + (e6 + (e7 + (e8 + (e9 + (e10 + empty))))));
    lemma_sfx_u8(s, p1 + 1, job_state_tag(r.state), t4);
    let p3: int = p1 + 2;
    lemma_sfx_str(s, p3, r.kind, e5 + (e6 + (e7 + (e8 + (e9 + (e10 + empty))))));
    let p4: int = p3 + e4.len();
    lemma_sfx_u64(s, p4, r.progress, e6 + (e7 + (e8 + (e9 + (e10 + empty)))));
    lemma_sfx_u64(s, p4 + 8, r.resume_hint, e7 + (e8 + (e9 + (e10 + empty))));
    let p6: int = p4 + 16;
    lemma_sfx_str(s, p6, r.payload, e8 + (e9 + (e10 + empty)));
    let p7: int = p6 + e7.len();
    lemma_sfx_u64(s, p7, r.created_ms, e9 + (e10 + empty));
    lemma_sfx_u64(s, p7 + 8, updated, e10 + empty);
    lemma_sfx_opt_str(s, p7 + 16, r.error, empty);
}

/// Keeps the records in the given state, in order.
pub fn filter_jobs_in_state(jobs: Vec<JobRecord>, state: JobState) -> (r: Vec<JobRecord>)
    ensures
        r@ == jobs@.filter(|j: JobRecord| j.state == state),
{
    let mut out: Vec<JobRecord> = Vec::new();
    let mut jobs = jobs;
    let ghost all = jobs@;
    let ghost mut i: int = 0;
    while jobs.len() > 0
        invariant
            0 <= i <= all.len(),
            jobs@ == all.subrange(i, all.len() as int),
            out@ == all.subrange(0, i).filter(|j: JobRecord| j.state == state),
        decreases jobs.len(),
    {
        let j = jobs.remove(0);
        proof {
            assert(j == all[i]);
            assert(all.subrange(0, i + 1) =~= all.subrange(0, i).push(j));
            reveal(Seq::filter);
            assert(all.subrange(0, i).push(j).drop_last() =~= all.subrange(0, i));
        }
        if j.state == state {
            out.push(j);
        }
        proof {
            i = i + 1;
            assert(jobs@ =~= all.subrange(i, all.len() as int));
        }
    }
    proof {
        assert(all.subrange(0, i) =~= all);
    }
    out
}

// ---------------------------------------------------------------------------
// Cache entries
// ---------------------------------------------------------------------------

/// Serializes a cache entry row: the cache file path.
pub fn encode_cache_entry(cache_path: &str) -> (r: Vec<u8>)
    ensures
        r@ == enc_str(cache_path@),
{
    let mut row = Enc::new();
    row.str(cache_path);
    proof {
        assert(row@ =~= enc_str(cache_path@));
    }
    row.finish()
}

/// Reads the cache file path of a cache entry row.
///
/// # Errors
/// Returns [`AssetError::Db`] for a truncated row or bad UTF-8.
pub fn decode_cache_entry(data: &[u8]) -> (r: Result<String, AssetError>)
    ensures
        match rd_str(data@, 0) {
            Some((p, _)) => r matches Ok(x) && x@ == p,
            None => r matches Err(AssetError::Db(_)),
        },
{
    let mut d = Dec::new(data);
    d.str()
}

/// Where a key stands relative to an asset's cache-entry key range.
pub enum CacheKeyClass {
    /// A key of the asset, naming this cache type.
    Entry(CacheType),
    /// A key of the asset with an unknown cache type tag.
    Corrupt,
    /// A key outside the asset's range.
    Outside,
}

/// True when `key` is a 25-byte cache-entry key of the asset with key `prefix`.
pub open spec fn in_asset_range(key: Seq<u8>, prefix: Seq<u8>) -> bool {
    key.len() == 25 && prefix.len() == 24 && key.subrange(0, 24) == prefix
}

/// Classifies a table key against an asset's 24-byte key.
pub fn classify_cache_key(key: &[u8], prefix: &[u8; 24]) -> (r: CacheKeyClass)
    ensures
        !in_asset_range(key@, prefix@) <==> r is Outside,
        in_asset_range(key@, prefix@) ==> match cache_type_from_tag(key@[24]) {
            Some(c) => r == CacheKeyClass::Entry(c),
            None => r is Corrupt,
        },
{
    if key.len() != 25 {
        return CacheKeyClass::Outside;
    }
    let mut i: usize = 0;
    while i < 24
        invariant
            key@.len() == 25,
            prefix@.len() == 24,
            i <= 24,
            forall|k: int| 0 <= k < i ==> key@[k] == prefix@[k],
        decreases 24 - i,
    {
        if key[i] != prefix[i] {
            proof {
                assert(key@.subrange(0, 24)[i as int] != prefix@[i as int]);
            }
            return CacheKeyClass::Outside;
        }
        i += 1;
    }
    proof {
        assert(key@.subrange(0, 24) =~= prefix@);
    }
    match CacheType::from_u8(key[24]) {
        Some(c) => CacheKeyClass::Entry(c),
        None => CacheKeyClass::Corrupt,
    }
}

/// The key of an asset's cache entry lies in the asset's range and names
/// the cache type it was built for; keys of other assets lie outside it.
pub proof fn lemma_cache_key_in_range(id: AssetId, other: AssetId, c: CacheType)
    requires
        other != id,
    ensures
        in_asset_range(spec_key_bytes(id).push(crate::model::cache_type_tag(c)), spec_key_bytes(id)),
        cache_type_from_tag(spec_key_bytes(id).push(crate::model::cache_type_tag(c))[24]) == Some(c),
        !in_asset_range(spec_key_bytes(other).push(crate::model::cache_type_tag(c)), spec_key_bytes(id)),
{
    crate::asset::lemma_key_bytes_roundtrip(id);
    crate::asset::lemma_key_bytes_roundtrip(other);
    lemma_id_from_key_roundtrip(id);
    lemma_id_from_key_roundtrip(other);
    let k = spec_key_bytes(id).push(crate::model::cache_type_tag(c));
    assert(k.subrange(0, 24) =~= spec_key_bytes(id));
    let ko = spec_key_bytes(other).push(crate::model::cache_type_tag(c));
    assert(ko.subrange(0, 24) =~= spec_key_bytes(other));
}

} // verus!
