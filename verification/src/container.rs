//! The TPT proxy stream container (`.tkvp`): a fixed 32-byte header
//! followed by length-prefixed, independently decodable frame payloads.
//!
//! ```text
//! offset 0   magic "TPTVPR1"                    (7 bytes, then one zero byte)
//! offset 8   width   u32 LE
//! offset 12  height  u32 LE
//! offset 16  fps     f64 LE
//! offset 24  frame_count u32 LE                 (0 until the writer finishes)
//! offset 28  version u8 = 1
//! offset 29  transform_id u8 = 0
//! offset 30  plane_count u8 = 3                  (R, G, B)
//! offset 31  bit_depth  u8 = 16
//! offset 32  frames: [u32 LE payload_len][payload]…
//! ```

use vstd::bytes::*;
use vstd::prelude::*;

use crate::model::AssetError;

verus! {

broadcast use vstd::seq::group_seq_axioms;

/// Fixed header length in bytes.
pub const HEADER_LEN: u64 = 32;

/// Container format version.
pub const VERSION: u8 = 1;

/// Transform applied before residual coding.
pub const TRANSFORM_ID: u8 = 0;

/// Number of planes per frame (R, G, B).
pub const PLANE_COUNT: usize = 3;

/// Bits per plane sample.
pub const BIT_DEPTH: u8 = 16;

/// 8-bit → 16-bit sample scaling (`v * 257` fills both bytes exactly).
pub const UPSCALE: u16 = 257;

/// The container magic, `"TPTVPR1"`.
pub open spec fn spec_magic() -> Seq<u8> {
    seq![0x54u8, 0x50u8, 0x54u8, 0x56u8, 0x50u8, 0x52u8, 0x31u8]
}

/// The container magic bytes, `"TPTVPR1"`.
pub fn magic() -> (r: [u8; 7])
    ensures
        r@ == spec_magic(),
{
    let r: [u8; 7] = [0x54, 0x50, 0x54, 0x56, 0x50, 0x52, 0x31];
    proof {
        assert(r@ =~= spec_magic());
    }
    r
}

/// A positive, finite frame rate, given by its IEEE-754 bit pattern: the
/// sign bit is clear, the value is not zero, and the exponent is not the
/// all-ones pattern of infinities and NaNs.
pub open spec fn valid_rate_bits(bits: u64) -> bool {
    0 < bits && bits < 0x7FF0_0000_0000_0000
}

/// Container header.
#[derive(Debug, Clone, Copy, PartialEq, Eq, Structural)]
pub struct Header {
    /// Frame width in pixels.
    pub width: u32,
    /// Frame height in pixels.
    pub height: u32,
    /// Frames per second (IEEE-754 bits).
    pub fps: u64,
    /// Declared frame count (0 in a file still being written).
    pub frame_count: u32,
}

/// The 32-byte representation of a header.
pub open spec fn spec_header_bytes(h: Header) -> Seq<u8> {
    spec_magic() + seq![0u8] + spec_u32_to_le_bytes(h.width) + spec_u32_to_le_bytes(h.height)
        + spec_u64_to_le_bytes(h.fps) + spec_u32_to_le_bytes(h.frame_count) + seq![
        VERSION,
        TRANSFORM_ID,
        3u8,
        BIT_DEPTH,
    ]
}

/// The header a 32-byte block holds, if it is a valid v1 proxy stream
/// header: right magic, non-zero dimensions, positive finite rate, and the
/// fixed version / transform / plane count / bit depth.
pub open spec fn spec_parse_header(raw: Seq<u8>) -> Option<Header> {
    let h = Header {
        width: spec_u32_from_le_bytes(raw.subrange(8, 12)),
        height: spec_u32_from_le_bytes(raw.subrange(12, 16)),
        fps: spec_u64_from_le_bytes(raw.subrange(16, 24)),
        frame_count: spec_u32_from_le_bytes(raw.subrange(24, 28)),
    };
    if raw.subrange(0, 7) == spec_magic() && h.width != 0 && h.height != 0 && valid_rate_bits(h.fps)
        && raw[28] == VERSION && raw[29] == TRANSFORM_ID && raw[30] == 3 && raw[31] == BIT_DEPTH {
        Some(h)
    } else {
        None
    }
}

fn write_at(raw: &mut [u8; 32], at: usize, bytes: &Vec<u8>)
    requires
        at + bytes@.len() <= 32,
    ensures
        final(raw)@ == old(raw)@.subrange(0, at as int) + bytes@ + old(raw)@.subrange(
            at + bytes@.len(),
            32,
        ),
{
    let mut i: usize = 0;
    while i < bytes.len()
        invariant
            i <= bytes@.len(),
            at + bytes@.len() <= 32,
            raw@.len() == 32,
            forall|k: int| 0 <= k < at ==> raw@[k] == old(raw)@[k],
            forall|k: int| at + bytes@.len() <= k < 32 ==> raw@[k] == old(raw)@[k],
            forall|k: int| 0 <= k < i ==> raw@[at + k] == bytes@[k],
        decreases bytes@.len() - i,
    {
        raw[at + i] = bytes[i];
        i += 1;
    }
    proof {
        assert(raw@ =~= old(raw)@.subrange(0, at as int) + bytes@ + old(raw)@.subrange(
            at + bytes@.len(),
            32,
        ));
    }
}

impl Header {
    /// Parses the fixed header from its 32-byte representation.
    ///
    /// # Errors
    /// Returns [`AssetError::Validation`] for a bad magic or parameters.
    pub fn parse(raw: &[u8; 32]) -> (r: Result<Header, AssetError>)
        ensures
            match spec_parse_header(raw@) {
                Some(h) => r matches Ok(x) && x == h,
                None => r matches Err(AssetError::Validation(_)),
            },
    {
        let m = magic();
        let mut i: usize = 0;
        while i < 7
            invariant
                i <= 7,
                m@ == spec_magic(),
                raw@.len() == 32,
                forall|k: int| 0 <= k < i ==> raw@[k] == m@[k],
            decreases 7 - i,
        {
            if raw[i] != m[i] {
                proof {
                    assert(raw@.subrange(0, 7)[i as int] != spec_magic()[i as int]);
                }
                return Err(AssetError::validation("not a TPT proxy stream"));
            }
            i += 1;
        }
        proof {
            assert(raw@.subrange(0, 7) =~= spec_magic());
        }
        let s = raw.as_slice();
        let header = Header {
            width: u32_from_le_bytes(vstd::slice::slice_subrange(s, 8, 12)),
            height: u32_from_le_bytes(vstd::slice::slice_subrange(s, 12, 16)),
            fps: u64_from_le_bytes(vstd::slice::slice_subrange(s, 16, 24)),
            frame_count: u32_from_le_bytes(vstd::slice::slice_subrange(s, 24, 28)),
        };
        if header.width == 0 || header.height == 0 {
            return Err(AssetError::validation("zero-sized proxy stream frame"));
        }
        if !(0 < header.fps && header.fps < 0x7FF0_0000_0000_0000) {
            return Err(AssetError::validation("invalid proxy stream fps"));
        }
        if raw[28] != VERSION || raw[29] != TRANSFORM_ID || raw[30] as usize != PLANE_COUNT
            || raw[31] != BIT_DEPTH {
            return Err(AssetError::validation("unsupported proxy stream variant"));
        }
        Ok(header)
    }

    /// Serializes the header to its 32-byte on-disk representation.
    pub fn bytes(&self) -> (r: [u8; 32])
        ensures
            r@ == spec_header_bytes(*self),
    {
        let mut raw = [0u8; 32];
        let m = magic();
        let mut i: usize = 0;
        while i < 7
            invariant
                i <= 7,
                m@ == spec_magic(),
                raw@.len() == 32,
                forall|k: int| 0 <= k < i ==> raw@[k] == m@[k],
                forall|k: int| 7 <= k < 32 ==> raw@[k] == 0,
            decreases 7 - i,
        {
            raw[i] = m[i];
            i += 1;
        }
        write_at(&mut raw, 8, &u32_to_le_bytes(self.width));
        write_at(&mut raw, 12, &u32_to_le_bytes(self.height));
        write_at(&mut raw, 16, &u64_to_le_bytes(self.fps));
        write_at(&mut raw, 24, &u32_to_le_bytes(self.frame_count));
        raw[28] = VERSION;
        raw[29] = TRANSFORM_ID;
        raw[30] = PLANE_COUNT as u8;
        raw[31] = BIT_DEPTH;
        proof {
            lemma_auto_spec_u32_to_from_le_bytes();
            lemma_auto_spec_u64_to_from_le_bytes();
            assert(raw@ =~= spec_header_bytes(*self));
        }
        raw
    }
}

/// Parsing the bytes of a header gives it back, exactly when its
/// dimensions are non-zero and its rate is positive and finite.
pub proof fn lemma_header_roundtrip(h: Header)
    ensures
        spec_header_bytes(h).len() == 32,
        spec_parse_header(spec_header_bytes(h)) == if h.width != 0 && h.height != 0
            && valid_rate_bits(h.fps) {
            Some(h)
        } else {
            None
        },
{
    lemma_auto_spec_u32_to_from_le_bytes();
    lemma_auto_spec_u64_to_from_le_bytes();
    let b = spec_header_bytes(h);
    assert(b.subrange(0, 7) =~= spec_magic());
    assert(b.subrange(8, 12) =~= spec_u32_to_le_bytes(h.width));
    assert(b.subrange(12, 16) =~= spec_u32_to_le_bytes(h.height));
    assert(b.subrange(16, 24) =~= spec_u64_to_le_bytes(h.fps));
    assert(b.subrange(24, 28) =~= spec_u32_to_le_bytes(h.frame_count));
}

/// A parsed header serializes back to the block it was read from, except
/// for the unused byte after the magic, which is written as zero.
pub proof fn lemma_header_parse_serialize(raw: Seq<u8>)
    requires
        raw.len() == 32,
        spec_parse_header(raw) is Some,
    ensures
        spec_header_bytes(spec_parse_header(raw).unwrap()) == raw.update(7, 0u8),
{
    lemma_auto_spec_u32_to_from_le_bytes();
    lemma_auto_spec_u64_to_from_le_bytes();
    let h = spec_parse_header(raw).unwrap();
    assert(spec_u32_to_le_bytes(h.width) == raw.subrange(8, 12));
    assert(spec_u32_to_le_bytes(h.height) == raw.subrange(12, 16));
    assert(spec_u64_to_le_bytes(h.fps) == raw.subrange(16, 24));
    assert(spec_u32_to_le_bytes(h.frame_count) == raw.subrange(24, 28));
    assert(spec_header_bytes(h) =~= raw.update(7, 0u8));
}

// ---------------------------------------------------------------------------
// Frame table
// ---------------------------------------------------------------------------

/// The frame table of the entries from `pos` on: each entry is a `u32`
/// payload length and the payload; the scan stops at the first entry that
/// would overrun the data, and after `left` entries when `bounded`.
pub open spec fn spec_scan_from(data: Seq<u8>, pos: int, left: nat, bounded: bool) -> Seq<(u64, u64)>
    decreases data.len() - pos,
{
    if (bounded && left == 0) || pos < 0 || pos + 4 > data.len() {
        Seq::empty()
    } else {
        let len = spec_u32_from_le_bytes(data.subrange(pos, pos + 4)) as int;
        if pos + 4 + len > data.len() {
            Seq::empty()
        } else {
            seq![((pos + 4) as u64, len as u64)] + spec_scan_from(
                data,
                pos + 4 + len,
                if bounded {
                    (left - 1) as nat
                } else {
                    left
                },
                bounded,
            )
        }
    }
}

/// The frame table of a whole container file: entries after the header,
/// at most the declared count unless it is 0 (a file still being written).
pub open spec fn spec_frame_table(data: Seq<u8>, declared: u32) -> Seq<(u64, u64)> {
    spec_scan_from(data, HEADER_LEN as int, declared as nat, declared != 0)
}

/// Builds the `(payload offset, payload length)` table of a container file
/// by a sequential scan. The declared frame count and the per-frame lengths
/// are untrusted: the scan never reads past the data and degrades to the
/// valid prefix when the tail is truncated.
pub fn scan_frame_table(data: &[u8], frame_count: u32) -> (r: Vec<(u64, u64)>)
    ensures
        r@ == spec_frame_table(data@, frame_count),
{
    let bounded = frame_count != 0;
    let mut left: u32 = frame_count;
    let mut pos: usize = 32;
    let mut out: Vec<(u64, u64)> = Vec::new();
    let mut done = false;
    let ghost total = spec_frame_table(data@, frame_count);
    while !done && !(bounded && left == 0) && pos <= data.len() && data.len() - pos >= 4
        invariant
            bounded == (frame_count != 0),
            out@ + spec_scan_from(data@, pos as int, left as nat, bounded) == total,
            done ==> spec_scan_from(data@, pos as int, left as nat, bounded) == Seq::<(u64, u64)>::empty(),
        decreases data@.len() - pos, (if done { 0int } else { 1int }),
    {
        let len = u32_from_le_bytes(vstd::slice::slice_subrange(data, pos, pos + 4));
        if data.len() - pos - 4 < len as usize {
            done = true;
        } else {
            proof {
                let rest = spec_scan_from(data@, pos + 4 + len, if bounded { (left - 1) as nat } else { left as nat }, bounded);
                assert(spec_scan_from(data@, pos as int, left as nat, bounded) == seq![((pos + 4) as u64, len as u64)] + rest);
                assert(out@.push(((pos + 4) as u64, len as u64)) + rest =~= out@ + (seq![((pos + 4) as u64, len as u64)] + rest));
            }
            out.push(((pos + 4) as u64, len as u64));
            pos = pos + 4 + len as usize;
            if bounded {
                left = left - 1;
            }
        }
    }
    proof {
        assert(spec_scan_from(data@, pos as int, left as nat, bounded) =~= Seq::<(u64, u64)>::empty());
        assert(out@ =~= total);
    }
    out
}

/// Every entry of the scan from `pos` lies inside the data at or after
/// `pos + 4`, and a bounded scan has at most `left` entries.
proof fn lemma_scan_in_bounds(data: Seq<u8>, pos: int, left: nat, bounded: bool)
    requires
        pos >= 0,
        data.len() <= u64::MAX,
    ensures
        bounded ==> spec_scan_from(data, pos, left, bounded).len() <= left,
        forall|k: int|
            0 <= k < spec_scan_from(data, pos, left, bounded).len() ==> pos + 4 <= (
            #[trigger] spec_scan_from(data, pos, left, bounded)[k]).0 && spec_scan_from(
                data,
                pos,
                left,
                bounded,
            )[k].0 + spec_scan_from(data, pos, left, bounded)[k].1 <= data.len(),
    decreases data.len() - pos,
{
    if !((bounded && left == 0) || pos + 4 > data.len()) {
        let len = spec_u32_from_le_bytes(data.subrange(pos, pos + 4)) as int;
        if pos + 4 + len <= data.len() {
            let next_left = if bounded {
                (left - 1) as nat
            } else {
                left
            };
            lemma_scan_in_bounds(data, pos + 4 + len, next_left, bounded);
            let rest = spec_scan_from(data, pos + 4 + len, next_left, bounded);
            let all = spec_scan_from(data, pos, left, bounded);
            assert(all == seq![((pos + 4) as u64, len as u64)] + rest);
            assert(((pos + 4) as u64) as int == pos + 4);
            assert((len as u64) as int == len);
            assert forall|k: int| 0 <= k < all.len() implies pos + 4 <= (#[trigger] all[k]).0 && all[k].0
                + all[k].1 <= data.len() by {
                if k > 0 {
                    assert(all[k] == rest[k - 1]);
                } else {
                    assert(all[0] == ((pos + 4) as u64, len as u64));
                }
            }
        }
    }
}

/// Hostile input cannot make the frame table point outside the file: every
/// entry lies after the header and inside the data, and a declared frame
/// count bounds the number of entries.
pub proof fn lemma_frame_table_in_bounds(data: Seq<u8>, declared: u32)
    requires
        data.len() <= u64::MAX,
    ensures
        declared != 0 ==> spec_frame_table(data, declared).len() <= declared,
        forall|k: int|
            0 <= k < spec_frame_table(data, declared).len() ==> HEADER_LEN + 4 <= (
            #[trigger] spec_frame_table(data, declared)[k]).0 && spec_frame_table(data, declared)[k].0
                + spec_frame_table(data, declared)[k].1 <= data.len(),
{
    lemma_scan_in_bounds(data, HEADER_LEN as int, declared as nat, declared != 0);
}

// ---------------------------------------------------------------------------
// Writer
// ---------------------------------------------------------------------------

/// Sequential proxy stream writer: the header the stream was created with
/// and the frames appended so far. The caller writes
/// [`Writer::header_bytes`] first, encodes the planes each
/// [`Writer::write_frame`] returns and appends them as
/// `[u32 LE length][payload]`, and writes [`Writer::finish`] back over the
/// header at offset 0.
#[derive(Debug)]
pub struct Writer {
    header: Header,
    frame_count: u32,
}

impl Writer {
    /// The header the stream was created with (frame count 0).
    pub closed spec fn spec_header(&self) -> Header {
        self.header
    }

    /// Frames appended so far.
    pub closed spec fn spec_frame_count(&self) -> u32 {
        self.frame_count
    }

    /// Starts a stream of `width × height` frames at `fps` (IEEE-754 bits).
    ///
    /// # Errors
    /// Returns [`AssetError::Validation`] when a dimension does not fit in
    /// 16 bits.
    pub fn create(width: u32, height: u32, fps: u64) -> (r: Result<Writer, AssetError>)
        ensures
            r is Ok <==> width <= 0xFFFF && height <= 0xFFFF,
            r matches Ok(w) ==> w.spec_header() == (Header { width, height, fps, frame_count: 0 })
                && w.spec_frame_count() == 0,
            r matches Err(e) ==> e is Validation,
    {
        if width > 0xFFFF || height > 0xFFFF {
            return Err(AssetError::validation("proxy stream dimensions must fit in u16"));
        }
        Ok(Writer { header: Header { width, height, fps, frame_count: 0 }, frame_count: 0 })
    }

    /// The placeholder header written when the stream is created.
    pub fn header_bytes(&self) -> (r: [u8; 32])
        ensures
            r@ == spec_header_bytes(self.spec_header()),
    {
        self.header.bytes()
    }

    /// Frame width and height.
    pub fn size(&self) -> (r: (u32, u32))
        ensures
            r == (self.spec_header().width, self.spec_header().height),
    {
        (self.header.width, self.header.height)
    }

    /// Frames written so far.
    pub fn frame_count(&self) -> (r: u32)
        ensures
            r == self.spec_frame_count(),
    {
        self.frame_count
    }

    /// Checks one RGBA8 frame, counts it, and splits it into the planes to
    /// encode and append.
    ///
    /// # Errors
    /// Returns [`AssetError::Validation`] for a buffer that is not
    /// `width * height * 4` bytes; nothing is counted then.
    pub fn write_frame(&mut self, rgba: &[u8]) -> (r: Result<Vec<Plane>, AssetError>)
        requires
            old(self).spec_frame_count() < u32::MAX,
        ensures
            final(self).spec_header() == old(self).spec_header(),
            r is Ok <==> rgba@.len() == old(self).spec_header().width as int * old(
                self,
            ).spec_header().height as int * 4,
            r is Ok ==> final(self).spec_frame_count() == old(self).spec_frame_count() + 1,
            r is Err ==> final(self).spec_frame_count() == old(self).spec_frame_count(),
            r matches Err(e) ==> e is Validation,
            r matches Ok(planes) ==> planes@.len() == 3 && forall|c: int|
                0 <= c < 3 ==> {
                    &&& (#[trigger] planes@[c]).width == old(self).spec_header().width
                    &&& planes@[c].height == old(self).spec_header().height
                    &&& planes@[c].bit_depth == BIT_DEPTH
                    &&& planes@[c].data@.len() == rgba@.len() / 4
                    &&& forall|i: int|
                        0 <= i < rgba@.len() / 4 ==> #[trigger] planes@[c].data@[i] == split_sample(
                            rgba@,
                            c,
                            i,
                        )
                },
    {
        let w = self.header.width;
        let h = self.header.height;
        proof {
            assert(w as int * h as int <= 0xFFFF_FFFF * 0xFFFF_FFFF) by (nonlinear_arith)
                requires
                    w <= 0xFFFF_FFFF,
                    h <= 0xFFFF_FFFF,
            ;
        }
        let expected: u128 = w as u128 * h as u128 * 4;
        if rgba.len() as u128 != expected {
            return Err(AssetError::validation("frame data length does not match its size"));
        }
        proof {
            assert(w as int * h as int <= usize::MAX) by (nonlinear_arith)
                requires
                    rgba@.len() == w as int * h as int * 4,
                    rgba@.len() <= usize::MAX,
            ;
            assert(rgba@.len() / 4 == w as int * h as int);
        }
        let planes = rgba_to_planes(rgba, w, h);
        self.frame_count = self.frame_count + 1;
        Ok(planes)
    }

    /// The header to write back when the stream is finished: the creation
    /// header with the frame count patched in.
    pub fn finish(&self) -> (r: [u8; 32])
        ensures
            r@ == spec_header_bytes(
                Header { frame_count: self.spec_frame_count(), ..self.spec_header() },
            ),
    {
        let h = Header {
            width: self.header.width,
            height: self.header.height,
            fps: self.header.fps,
            frame_count: self.frame_count,
        };
        h.bytes()
    }
}

// ---------------------------------------------------------------------------
// Planes
// ---------------------------------------------------------------------------

/// One plane of 16-bit samples.
#[derive(Debug, Clone)]
pub struct Plane {
    /// Width in samples.
    pub width: u32,
    /// Height in samples.
    pub height: u32,
    /// Bits per sample.
    pub bit_depth: u8,
    /// Row-major samples.
    pub data: Vec<u16>,
}

/// Sample `i` of channel `c` after splitting: the 8-bit value scaled to
/// 16 bits, or 0 past the end of the RGBA data.
pub open spec fn split_sample(rgba: Seq<u8>, c: int, i: int) -> u16 {
    if i < rgba.len() / 4 {
        (rgba[4 * i + c] as u16 * 257) as u16
    } else {
        0
    }
}

/// Splits an RGBA8 buffer into three 16-bit planes (R, G, B); alpha is
/// dropped.
pub fn rgba_to_planes(rgba: &[u8], width: u32, height: u32) -> (r: Vec<Plane>)
    requires
        width as int * height as int <= usize::MAX,
        rgba@.len() / 4 <= width as int * height as int,
    ensures
        r@.len() == 3,
        forall|c: int|
            0 <= c < 3 ==> {
                &&& (#[trigger] r@[c]).width == width
                &&& r@[c].height == height
                &&& r@[c].bit_depth == BIT_DEPTH
                &&& r@[c].data@.len() == width as int * height as int
                &&& forall|i: int| 0 <= i < width as int * height as int ==> #[trigger] r@[c].data@[i] == split_sample(rgba@, c, i)
            },
{
    proof {
        vstd::arithmetic::mul::lemma_mul_nonnegative(width as int, height as int);
    }
    let pixels = width as usize * height as usize;
    let mut r = vec![0u16; pixels];
    let mut g = vec![0u16; pixels];
    let mut b = vec![0u16; pixels];
    let len = rgba.len();
    let n = len / 4;
    let mut i: usize = 0;
    while i < n
        invariant
            len == rgba@.len(),
            n == rgba@.len() / 4,
            n <= pixels,
            pixels == width as int * height as int,
            r@.len() == pixels,
            g@.len() == pixels,
            b@.len() == pixels,
            i <= n,
            forall|k: int| 0 <= k < pixels ==> #[trigger] r@[k] == (if k < i { split_sample(rgba@, 0, k) } else { 0 }),
            forall|k: int| 0 <= k < pixels ==> #[trigger] g@[k] == (if k < i { split_sample(rgba@, 1, k) } else { 0 }),
            forall|k: int| 0 <= k < pixels ==> #[trigger] b@[k] == (if k < i { split_sample(rgba@, 2, k) } else { 0 }),
        decreases n - i,
    {
        proof {
            assert(4 * i + 3 < rgba@.len()) by (nonlinear_arith)
                requires
                    i < n,
                    n == rgba@.len() / 4,
            ;
            assert(4 * i + 3 < len);
        }
        let rv = rgba[4 * i] as u16;
        let gv = rgba[4 * i + 1] as u16;
        let bv = rgba[4 * i + 2] as u16;
        r.set(i, rv * UPSCALE);
        g.set(i, gv * UPSCALE);
        b.set(i, bv * UPSCALE);
        i += 1;
    }
    let mut planes: Vec<Plane> = Vec::new();
    planes.push(Plane { width, height, bit_depth: BIT_DEPTH, data: r });
    planes.push(Plane { width, height, bit_depth: BIT_DEPTH, data: g });
    planes.push(Plane { width, height, bit_depth: BIT_DEPTH, data: b });
    planes
}

/// True when a plane set has three planes of `pixels` samples each.
pub open spec fn planes_well_sized(planes: Seq<Plane>, pixels: int) -> bool {
    planes.len() == 3 && forall|c: int| 0 <= c < 3 ==> (#[trigger] planes[c]).data@.len() == pixels
}

/// Byte `k` of the RGBA buffer rebuilt from well-sized planes: the high
/// byte of the channel's sample, and 255 for alpha.
pub open spec fn joined_byte(planes: Seq<Plane>, k: int) -> u8 {
    if k % 4 == 3 {
        255
    } else {
        (planes[k % 4].data@[k / 4] >> 8) as u8
    }
}

/// Rebuilds an RGBA8 buffer from three decoded planes.
///
/// # Errors
/// Returns [`AssetError::Codec`] when the plane set is malformed (not three
/// planes, or a plane whose size is not `width * height`).
pub fn planes_to_rgba(planes: &[Plane], width: u32, height: u32) -> (r: Result<Vec<u8>, AssetError>)
    requires
        width as int * height as int * 4 <= usize::MAX,
    ensures
        planes_well_sized(planes@, width as int * height as int) <==> r is Ok,
        r matches Ok(out) ==> out@.len() == width as int * height as int * 4 && forall|k: int|
            0 <= k < out@.len() ==> #[trigger] out@[k] == joined_byte(planes@, k),
        r matches Err(e) ==> e is Codec,
{
    if planes.len() != PLANE_COUNT {
        return Err(AssetError::codec("expected 3 planes"));
    }
    proof {
        vstd::arithmetic::mul::lemma_mul_nonnegative(width as int, height as int);
    }
    let pixels = width as usize * height as usize;
    let total = pixels * 4;
    let mut rgba = vec![0u8; total];
    let mut c: usize = 0;
    while c < 3
        invariant
            planes@.len() == 3,
            pixels == width as int * height as int,
            total == pixels * 4,
            rgba@.len() == total,
            c <= 3,
            forall|cc: int| 0 <= cc < c ==> (#[trigger] planes@[cc]).data@.len() == pixels,
            forall|k: int| 0 <= k < total ==> #[trigger] rgba@[k] == (if k % 4 < c && k % 4 != 3 {
                joined_byte(planes@, k)
            } else {
                0u8
            }),
        decreases 3 - c,
    {
        if planes[c].data.len() != pixels {
            return Err(AssetError::codec("decoded plane size mismatch"));
        }
        let mut i: usize = 0;
        while i < pixels
            invariant
                planes@.len() == 3,
                c < 3,
                planes@[c as int].data@.len() == pixels,
                total == pixels * 4,
                rgba@.len() == total,
                i <= pixels,
                forall|k: int| 0 <= k < total ==> #[trigger] rgba@[k] == (if k % 4 < c && k % 4 != 3 {
                    joined_byte(planes@, k)
                } else if k % 4 == c && k / 4 < i {
                    joined_byte(planes@, k)
                } else {
                    0u8
                }),
            decreases pixels - i,
        {
            let sample = planes[c].data[i];
            proof {
                assert((i * 4 + c) % 4 == c as int);
                assert((i * 4 + c) / 4 == i as int);
            }
            rgba.set(i * 4 + c, (sample >> 8u16) as u8);
            i += 1;
        }
        c += 1;
    }
    let mut p: usize = 0;
    while p < pixels
        invariant
            planes_well_sized(planes@, pixels as int),
            total == pixels * 4,
            rgba@.len() == total,
            p <= pixels,
            forall|k: int| 0 <= k < total ==> #[trigger] rgba@[k] == (if k % 4 != 3 || k / 4 < p {
                joined_byte(planes@, k)
            } else {
                0u8
            }),
        decreases pixels - p,
    {
        proof {
            assert((p * 4 + 3) % 4 == 3);
            assert((p * 4 + 3) / 4 == p as int);
        }
        rgba.set(p * 4 + 3, 255);
        p += 1;
    }
    Ok(rgba)
}

proof fn lemma_upscale_high_byte(v: u8)
    ensures
        (((v as u16 * 257) as u16) >> 8) as u8 == v,
{
    assert((((v as u16 * 257) as u16) >> 8) as u8 == v) by (bit_vector);
}

/// Splitting an RGBA8 frame into planes and joining them back restores
/// every colour byte exactly, with alpha set opaque: the proxy stream is
/// lossless for colour.
pub proof fn lemma_planes_roundtrip(rgba: Seq<u8>, planes: Seq<Plane>, width: u32, height: u32)
    requires
        rgba.len() == width as int * height as int * 4,
        planes_well_sized(planes, width as int * height as int),
        forall|c: int, i: int|
            0 <= c < 3 && 0 <= i < width as int * height as int ==> #[trigger] planes[c].data@[i]
                == split_sample(rgba, c, i),
    ensures
        forall|k: int|
            0 <= k < rgba.len() ==> #[trigger] joined_byte(planes, k) == if k % 4 == 3 {
                255u8
            } else {
                rgba[k]
            },
{
    assert forall|k: int| 0 <= k < rgba.len() implies #[trigger] joined_byte(planes, k) == if k % 4 == 3 {
        255u8
    } else {
        rgba[k]
    } by {
        if k % 4 != 3 {
            let c = k % 4;
            let i = k / 4;
            assert(4 * i + c == k);
            assert(i < width as int * height as int);
            assert(i < rgba.len() / 4);
            assert(planes[c].data@[i] == split_sample(rgba, c, i));
            lemma_upscale_high_byte(rgba[k]);
        }
    }
}

} // verus!
