# tpt_av_asset

The core of a media asset engine — row codecs for its database, the job
queue and dependency scheduler of its background pipeline, cache layout and
file formats, proxy profiles, and pixel and bitstream conversions — written
in Verus. Every function's contract is proved, except those of the few
wrappers around `std` and the `image` crate, whose contracts are trusted
and say so in their doc comments.

## Layout

- `src/` — the verified library.
  - `model`, `codec`, `asset`, `tables`: identifiers, state tags, the
    little-endian row codec and the asset, job and cache-entry rows.
  - `scheduler`, `queue`, `dispatch`, `progress`, `jobs`: dependency
    readiness, priority/FIFO dispatch, what a worker does next and what an
    outcome changes, progress records, and jobs as persisted text
    (including crash-recovery rebuilding).
  - `storage`, `thumbnail`, `peaks`, `extensions`, `text`: the cache tree,
    thumbnail sidecar and file names, waveform peak records, extension
    rules, and decimal/hex/field text.
  - `container`, `tkv`, `wav`, `wav_writer`, `encoder`, `profile`:
    proxy-stream and TKV headers and frame tables, RGBA plane splitting, WAV
    layout parsing and headers, the proxy encoder front end and proxy
    profiles.
  - `video`, `annexb`, `imaging`: container sniffing, AVCC→Annex-B,
    YUV420p→RGBA, Annex-B splitting and access-unit grouping, and the
    resampling/JPEG calls made through the `image` crate.
- `tests/` — tests of the library.
- `app/` — the command-line program: the `redb` database, files, threads
  and floating-point work around the library.
