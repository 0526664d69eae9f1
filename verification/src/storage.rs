//! On-disk cache storage layout.
//!
//! ```text
//! {root}/
//! ├── waveforms/{asset_hash}.peaks
//! ├── thumbnails/{asset_hash}/NNNNNN.jpg
//! └── proxies/{asset_hash}_proxy.mp4 | .flac
//! ```
//!
//! `asset_hash` mixes path hash, mtime, and size, so a modified source file
//! addresses a fresh namespace automatically: stale files are simply never
//! referenced again and can be pruned.
//!
//! Paths are `/`-separated text; creating and removing the files is the
//! caller's part.

use vstd::prelude::*;

use crate::asset::{spec_asset_hash, AssetId};
use crate::text::{fmt_hex16, hex16, lemma_hex16_injective};

verus! {

broadcast use vstd::seq::group_seq_axioms;

/// `base` joined with the relative component `comp`, inserting a `/`
/// unless `base` is empty or already ends with one.
pub open spec fn path_join(base: Seq<char>, comp: Seq<char>) -> Seq<char> {
    if base.len() == 0 {
        comp
    } else if base.last() == '/' {
        base + comp
    } else {
        base.push('/') + comp
    }
}

/// The 16-hex-digit cache namespace name of an asset.
pub open spec fn spec_namespace(id: AssetId) -> Seq<char> {
    hex16(spec_asset_hash(id))
}

/// `proxies/{asset_hash}_proxy.{extension}` under `root`.
pub open spec fn spec_proxy_path(root: Seq<char>, id: AssetId, extension: Seq<char>) -> Seq<char> {
    path_join(path_join(root, "proxies"@), spec_namespace(id) + "_proxy."@ + extension)
}

/// Root of the on-disk cache tree.
#[derive(Debug, Clone)]
pub struct CacheStorage {
    root: String,
}

impl View for CacheStorage {
    type V = Seq<char>;

    closed spec fn view(&self) -> Seq<char> {
        self.root@
    }
}

/// `base` joined with `comp`.
fn join(base: &str, comp: &str) -> (r: String)
    ensures
        r@ == path_join(base@, comp@),
{
    let cs = crate::text::chars_of(base);
    let mut s = String::from_str(base);
    if cs.len() > 0 && cs[cs.len() - 1] != '/' {
        proof {
            reveal_strlit("/");
        }
        s.append("/");
        proof {
            assert(s@ =~= base@.push('/'));
        }
    }
    s.append(comp);
    s
}

impl CacheStorage {
    /// Creates a storage handle rooted at `root` (not created on disk until
    /// something is written).
    pub fn new(root: &str) -> (r: CacheStorage)
        ensures
            r@ == root@,
    {
        CacheStorage { root: String::from_str(root) }
    }

    /// The cache root directory.
    pub fn root(&self) -> (r: &str)
        ensures
            r@ == self@,
    {
        self.root.as_str()
    }

    /// The 16-hex-digit cache namespace name for an asset.
    pub fn asset_hash(asset_id: AssetId) -> (r: String)
        ensures
            r@ == spec_namespace(asset_id),
    {
        fmt_hex16(asset_id.hash())
    }

    /// `{root}/waveforms`.
    pub fn waveform_dir(&self) -> (r: String)
        ensures
            r@ == path_join(self@, "waveforms"@),
    {
        join(self.root.as_str(), "waveforms")
    }

    /// `{root}/thumbnails`.
    pub fn thumbnail_root(&self) -> (r: String)
        ensures
            r@ == path_join(self@, "thumbnails"@),
    {
        join(self.root.as_str(), "thumbnails")
    }

    /// `{root}/proxies`.
    pub fn proxy_dir(&self) -> (r: String)
        ensures
            r@ == path_join(self@, "proxies"@),
    {
        join(self.root.as_str(), "proxies")
    }

    /// Path of the waveform peak file for an asset:
    /// `waveforms/{asset_hash}.peaks`.
    pub fn waveform_path(&self, asset_id: AssetId) -> (r: String)
        ensures
            r@ == path_join(
                path_join(self@, "waveforms"@),
                spec_namespace(asset_id) + ".peaks"@,
            ),
    {
        let mut name = Self::asset_hash(asset_id);
        name.append(".peaks");
        let dir = self.waveform_dir();
        join(dir.as_str(), name.as_str())
    }

    /// Directory holding an asset's thumbnails: `thumbnails/{asset_hash}/`.
    pub fn thumbnail_dir(&self, asset_id: AssetId) -> (r: String)
        ensures
            r@ == path_join(path_join(self@, "thumbnails"@), spec_namespace(asset_id)),
    {
        let name = Self::asset_hash(asset_id);
        let dir = self.thumbnail_root();
        join(dir.as_str(), name.as_str())
    }

    /// Path of a proxy output: `proxies/{asset_hash}_proxy.{extension}`.
    pub fn proxy_path(&self, asset_id: AssetId, extension: &str) -> (r: String)
        ensures
            r@ == spec_proxy_path(self@, asset_id, extension@),
    {
        let mut name = Self::asset_hash(asset_id);
        name.append("_proxy.");
        name.append(extension);
        let dir = self.proxy_dir();
        join(dir.as_str(), name.as_str())
    }
}

/// A modified source file (same path, and a new mtime or a new size)
/// addresses a different cache namespace.
pub proof fn lemma_new_version_new_hash(old_id: AssetId, new_id: AssetId)
    requires
        old_id.spec_path_hash() == new_id.spec_path_hash(),
        old_id.spec_mtime_ms() != new_id.spec_mtime_ms() && old_id.spec_size() == new_id.spec_size()
            || old_id.spec_mtime_ms() == new_id.spec_mtime_ms() && old_id.spec_size()
            != new_id.spec_size(),
    ensures
        spec_namespace(old_id) != spec_namespace(new_id),
{
    crate::asset::lemma_new_version_new_namespace(old_id, new_id);
    if spec_namespace(old_id) == spec_namespace(new_id) {
        lemma_hex16_injective(spec_asset_hash(old_id), spec_asset_hash(new_id));
    }
}

} // verus!
