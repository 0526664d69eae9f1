use std::path::PathBuf;

use tpt_av_asset::asset::AssetId;
use tpt_av_asset::storage::CacheStorage;

#[test]
fn layout_paths_embed_asset_hash() {
    let storage = CacheStorage::new("/tmp/cache");
    let a = AssetId::from_parts(1, 2, 3);
    let hash = CacheStorage::asset_hash(a);

    assert_eq!(
        PathBuf::from(storage.waveform_path(a)),
        PathBuf::from(format!("/tmp/cache/waveforms/{hash}.peaks"))
    );
    assert_eq!(
        PathBuf::from(storage.thumbnail_dir(a)),
        PathBuf::from(format!("/tmp/cache/thumbnails/{hash}"))
    );
    assert_eq!(
        PathBuf::from(storage.proxy_path(a, "mp4")),
        PathBuf::from(format!("/tmp/cache/proxies/{hash}_proxy.mp4"))
    );
}

#[test]
fn different_asset_versions_hash_differently() {
    let old = AssetId::from_parts(1, 100, 10);
    let new = AssetId::from_parts(1, 200, 10); // same file, later mtime
    assert_ne!(CacheStorage::asset_hash(old), CacheStorage::asset_hash(new));
}

#[test]
fn asset_hash_is_sixteen_lower_hex_digits() {
    let id = AssetId::from_parts(0xAB, 0, 0);
    assert_eq!(CacheStorage::asset_hash(id), "00000000000000ab");
    assert_eq!(CacheStorage::asset_hash(id), format!("{:016x}", id.hash()));
    let other = AssetId::from_parts(0xDEAD_BEEF, 7, 9);
    assert_eq!(CacheStorage::asset_hash(other), format!("{:016x}", other.hash()));
}

#[test]
fn root_with_trailing_slash_and_empty_root() {
    let storage = CacheStorage::new("/srv/cache/");
    assert_eq!(storage.root(), "/srv/cache/");
    assert_eq!(storage.waveform_dir(), "/srv/cache/waveforms");
    let relative = CacheStorage::new("");
    assert_eq!(relative.proxy_dir(), "proxies");
    assert_eq!(relative.thumbnail_root(), "thumbnails");
}
