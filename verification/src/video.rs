//! Video decoding support: container sniffing, AVCC→Annex-B conversion of
//! H.264 samples, and BT.601 YUV420p→RGBA conversion of decoded pictures.

use vstd::prelude::*;

use crate::container::spec_magic;
use crate::model::AssetError;
use crate::tkv::lemma_pixel_index;

verus! {

broadcast use vstd::seq::group_seq_axioms;

/// A decoded video frame in RGBA8.
#[derive(Debug, Clone)]
pub struct RgbaFrame {
    /// Zero-based display index.
    pub index: u64,
    /// Presentation timestamp in seconds (IEEE-754 bits).
    pub time_secs: u64,
    /// Width in pixels.
    pub width: u32,
    /// Height in pixels.
    pub height: u32,
    /// RGBA8 pixels, `width * height * 4` bytes.
    pub data: Vec<u8>,
}

/// The containers a video file can be opened as.
#[derive(Debug, Clone, Copy, PartialEq, Eq, Structural)]
pub enum SourceKind {
    /// MP4 with an H.264 track (an `ftyp` box first).
    Mp4H264,
    /// The proxy stream container (`TPTVPR1` magic).
    ProxyStream,
}

/// `"ftyp"`.
pub open spec fn ftyp() -> Seq<u8> {
    seq![0x66u8, 0x74u8, 0x79u8, 0x70u8]
}

/// The container the first bytes of a file (at most twelve of them)
/// announce: the proxy stream magic in the first seven, or `ftyp` at
/// offset 4 of a twelve-byte head.
pub open spec fn spec_sniff(head: Seq<u8>) -> Option<SourceKind> {
    if head.len() >= 7 && head.subrange(0, 7) == spec_magic() {
        Some(SourceKind::ProxyStream)
    } else if head.len() >= 12 && head.subrange(4, 8) == ftyp() {
        Some(SourceKind::Mp4H264)
    } else {
        None
    }
}

/// Recognizes the container from the first bytes of a file.
pub fn sniff_video(head: &[u8]) -> (r: Option<SourceKind>)
    ensures
        r == spec_sniff(head@),
{
    if head.len() >= 7 && head[0] == 0x54 && head[1] == 0x50 && head[2] == 0x54 && head[3] == 0x56
        && head[4] == 0x50 && head[5] == 0x52 && head[6] == 0x31 {
        proof {
            assert(head@.subrange(0, 7) =~= spec_magic());
        }
        return Some(SourceKind::ProxyStream);
    }
    proof {
        if head@.len() >= 7 && head@.subrange(0, 7) == spec_magic() {
            assert(head@.subrange(0, 7)[0] == head@[0]);
            assert(head@.subrange(0, 7)[1] == head@[1]);
            assert(head@.subrange(0, 7)[2] == head@[2]);
            assert(head@.subrange(0, 7)[3] == head@[3]);
            assert(head@.subrange(0, 7)[4] == head@[4]);
            assert(head@.subrange(0, 7)[5] == head@[5]);
            assert(head@.subrange(0, 7)[6] == head@[6]);
        }
    }
    if head.len() >= 12 && head[4] == 0x66 && head[5] == 0x74 && head[6] == 0x79 && head[7] == 0x70 {
        proof {
            assert(head@.subrange(4, 8) =~= ftyp());
        }
        return Some(SourceKind::Mp4H264);
    }
    proof {
        if head@.len() >= 12 && head@.subrange(4, 8) == ftyp() {
            assert(head@.subrange(4, 8)[0] == head@[4]);
            assert(head@.subrange(4, 8)[1] == head@[5]);
            assert(head@.subrange(4, 8)[2] == head@[6]);
            assert(head@.subrange(4, 8)[3] == head@[7]);
        }
    }
    None
}

// ---------------------------------------------------------------------------
// AVCC → Annex-B
// ---------------------------------------------------------------------------

/// The big-endian 32-bit value of four bytes.
pub open spec fn be32(b0: u8, b1: u8, b2: u8, b3: u8) -> nat {
    b0 as nat * 0x100_0000 + b1 as nat * 0x1_0000 + b2 as nat * 0x100 + b3 as nat
}

/// The Annex-B form of the length-prefixed NAL units of `data` from
/// offset `i` on, or `None` if a unit overruns the data. Fewer than four
/// trailing bytes are ignored.
pub open spec fn avcc_units(data: Seq<u8>, i: nat) -> Option<Seq<u8>>
    decreases data.len() - i,
{
    if i + 4 > data.len() {
        Some(Seq::empty())
    } else {
        let len = be32(data[i as int], data[i as int + 1], data[i as int + 2], data[i as int + 3]);
        let j = i + 4;
        if j + len > data.len() {
            None
        } else {
            match avcc_units(data, j + len) {
                Some(rest) => Some(seq![0u8, 0u8, 0u8, 1u8] + data.subrange(j as int, (j + len) as int) + rest),
                None => None,
            }
        }
    }
}

/// Converts one AVCC sample (4-byte big-endian length-prefixed NAL units)
/// into an Annex-B access unit (00 00 00 01 start codes).
///
/// # Errors
/// Returns [`AssetError::Codec`] for a unit that overruns the sample, or a
/// sample that holds no unit.
pub fn avcc_to_annexb(data: &[u8]) -> (r: Result<Vec<u8>, AssetError>)
    ensures
        match avcc_units(data@, 0) {
            Some(out) => if out.len() > 0 {
                r matches Ok(v) && v@ == out
            } else {
                r matches Err(AssetError::Codec(_))
            },
            None => r matches Err(AssetError::Codec(_)),
        },
{
    let mut out: Vec<u8> = Vec::new();
    let mut i: usize = 0;
    let n = data.len();
    while i <= n && n - i >= 4
        invariant
            n == data@.len(),
            i <= n,
            avcc_units(data@, 0) == match avcc_units(data@, i as nat) {
                Some(rest) => Some(out@ + rest),
                None => None,
            },
        decreases n - i,
    {
        let len: u64 = data[i] as u64 * 0x100_0000 + data[i + 1] as u64 * 0x1_0000 + data[i + 2] as u64
            * 0x100 + data[i + 3] as u64;
        let j = i + 4;
        if len > (n - j) as u64 {
            return Err(AssetError::codec("truncated AVCC sample"));
        }
        let end = j + len as usize;
        let ghost before = out@;
        out.push(0);
        out.push(0);
        out.push(0);
        out.push(1);
        let mut k = j;
        while k < end
            invariant
                n == data@.len(),
                j <= k <= end <= n,
                out@ == before + seq![0u8, 0u8, 0u8, 1u8] + data@.subrange(j as int, k as int),
            decreases end - k,
        {
            out.push(data[k]);
            proof {
                assert(data@.subrange(j as int, (k + 1) as int) =~= data@.subrange(
                    j as int,
                    k as int,
                ).push(data@[k as int]));
            }
            k += 1;
        }
        proof {
            assert(before + seq![0u8, 0u8, 0u8, 1u8] + data@.subrange(j as int, end as int)
                == out@);
            match avcc_units(data@, end as nat) {
                Some(rest) => {
                    assert(out@ + rest =~= before + (seq![0u8, 0u8, 0u8, 1u8] + data@.subrange(
                        j as int,
                        end as int,
                    ) + rest));
                },
                None => {},
            }
        }
        i = end;
    }
    proof {
        assert(avcc_units(data@, i as nat) == Some(Seq::<u8>::empty()));
        assert(out@ + Seq::<u8>::empty() =~= out@);
    }
    if out.len() == 0 {
        return Err(AssetError::codec("empty AVCC sample"));
    }
    Ok(out)
}

// ---------------------------------------------------------------------------
// YUV420p → RGBA
// ---------------------------------------------------------------------------

/// `x` clamped to `0..=255`.
pub open spec fn clamp_u8(x: int) -> u8 {
    if x < 0 {
        0
    } else if x > 255 {
        255
    } else {
        x as u8
    }
}

/// Width of a chroma plane.
pub open spec fn chroma_dim(n: nat) -> nat {
    (n + 1) / 2
}

/// Channel `c` of the RGBA pixel converted (BT.601, limited range) from
/// luma `y` and chroma `cb`, `cr`.
pub open spec fn bt601(y: u8, cb: u8, cr: u8, c: int) -> u8 {
    let yy = y as int - 16;
    let d = cb as int - 128;
    let e = cr as int - 128;
    if c == 0 {
        clamp_u8((298 * yy + 409 * e + 128) / 256)
    } else if c == 1 {
        clamp_u8((298 * yy - 100 * d - 208 * e + 128) / 256)
    } else if c == 2 {
        clamp_u8((298 * yy + 516 * d + 128) / 256)
    } else {
        255
    }
}

/// Byte `k` of the RGBA picture converted from a `w × h` YUV420p picture
/// (Y plane, then Cb, then Cr, chroma subsampled by two both ways).
pub open spec fn yuv_rgba_byte(data: Seq<u8>, w: nat, h: nat, k: int) -> u8 {
    let p = k / 4;
    let row = p / w as int;
    let col = p % w as int;
    let cw = chroma_dim(w) as int;
    let ch = chroma_dim(h) as int;
    let ci = (row / 2) * cw + col / 2;
    bt601(data[row * w + col], data[w * h + ci], data[w * h + cw * ch + ci], k % 4)
}

/// Where a `w × h` YUV420p picture keeps the samples of pixel `p`: luma
/// at `p`, blue-difference chroma in the plane right after luma, red-
/// difference chroma in the plane after that, each chroma sample shared by
/// a 2×2 block of pixels.
proof fn lemma_yuv_pixel_indices(w: nat, h: nat, p: int)
    requires
        w > 0,
        h > 0,
        0 <= p < w * h,
    ensures
        (4 * p) / 4 == p,
        (4 * p) % 4 == 0,
        (4 * p + 1) / 4 == p,
        (4 * p + 1) % 4 == 1,
        (4 * p + 2) / 4 == p,
        (4 * p + 2) % 4 == 2,
        (4 * p + 3) / 4 == p,
        (4 * p + 3) % 4 == 3,
        (p / w as int) * w + p % (w as int) == p,
        0 <= (p / w as int / 2) * ((w as int + 1) / 2) + (p % w as int) / 2 < ((w as int + 1) / 2) * ((h as int
            + 1) / 2),
{
    let row = p / w as int;
    let col = p % w as int;
    let cw = (w as int + 1) / 2;
    let ch = (h as int + 1) / 2;
    assert(row * w + col == p) by (nonlinear_arith)
        requires
            row == p / w as int,
            col == p % w as int,
            w > 0,
    ;
    assert(0 <= row < h) by (nonlinear_arith)
        requires
            row == p / w as int,
            0 <= p < w * h,
            w > 0,
    ;
    assert(0 <= col < w);
    let ci = (row / 2) * cw + col / 2;
    assert(0 <= ci < cw * ch) by (nonlinear_arith)
        requires
            ci == (row / 2) * cw + col / 2,
            0 <= row < h,
            0 <= col < w,
            cw == (w as int + 1) / 2,
            ch == (h as int + 1) / 2,
    ;
}

/// Which samples each colour channel reads, over every picture and pixel:
/// red is made from luma and the red-difference sample (the third plane)
/// alone, and rises with it; blue from luma and the blue-difference sample
/// (the second plane) alone, and rises with it; alpha is opaque; and
/// neutral chroma (128, 128) gives a grey pixel.
pub proof fn lemma_yuv_channel_sources(a: Seq<u8>, b: Seq<u8>, w: nat, h: nat, p: int)
    requires
        w > 0,
        h > 0,
        0 <= p < w * h,
        a.len() >= yuv_len(w, h),
        b.len() == a.len(),
    ensures
        ({
            let ci = (p / w as int / 2) * ((w as int + 1) / 2) + (p % w as int) / 2;
            let cb_at = w * h + ci;
            let cr_at = w * h + ((w as int + 1) / 2) * ((h as int + 1) / 2) + ci;
            &&& (forall|i: int| 0 <= i < a.len() && i != cb_at ==> a[i] == b[i]) ==> yuv_rgba_byte(a, w, h, 4 * p)
                == yuv_rgba_byte(b, w, h, 4 * p)
            &&& (forall|i: int| 0 <= i < a.len() && i != cr_at ==> a[i] == b[i]) ==> yuv_rgba_byte(
                a,
                w,
                h,
                4 * p + 2,
            ) == yuv_rgba_byte(b, w, h, 4 * p + 2)
            &&& (forall|i: int| 0 <= i < a.len() && i != cr_at ==> a[i] == b[i]) && a[cr_at] <= b[cr_at]
                ==> yuv_rgba_byte(a, w, h, 4 * p) <= yuv_rgba_byte(b, w, h, 4 * p)
            &&& (forall|i: int| 0 <= i < a.len() && i != cb_at ==> a[i] == b[i]) && a[cb_at] <= b[cb_at]
                ==> yuv_rgba_byte(a, w, h, 4 * p + 2) <= yuv_rgba_byte(b, w, h, 4 * p + 2)
            &&& yuv_rgba_byte(a, w, h, 4 * p + 3) == 255
            &&& a[cb_at] == 128 && a[cr_at] == 128 ==> yuv_rgba_byte(a, w, h, 4 * p) == yuv_rgba_byte(
                a,
                w,
                h,
                4 * p + 1,
            ) && yuv_rgba_byte(a, w, h, 4 * p + 1) == yuv_rgba_byte(a, w, h, 4 * p + 2)
        }),
{
    lemma_yuv_pixel_indices(w, h, p);
    let ci = (p / w as int / 2) * ((w as int + 1) / 2) + (p % w as int) / 2;
    let cw = (w as int + 1) / 2;
    let ch = (h as int + 1) / 2;
    assert(chroma_dim(w) == cw);
    assert(chroma_dim(h) == ch);
    assert(cw * ch >= 1) by (nonlinear_arith)
        requires
            cw >= 1,
            ch >= 1,
    ;
    let cb_at = w * h + ci;
    let cr_at = w * h + cw * ch + ci;
    assert(p < cb_at < cr_at < a.len());
}

/// The colour of pixel `p`, read from the picture's bytes by position:
/// with `y` its luma byte, `d` its blue-difference and `e` its red-
/// difference chroma byte less 128, red is `(298 (y − 16) + 409 e + 128) / 256`,
/// green `(298 (y − 16) − 100 d − 208 e + 128) / 256` and blue
/// `(298 (y − 16) + 516 d + 128) / 256`, each rounded down and clamped to
/// `0..=255`.
pub proof fn lemma_yuv_pixel_colour(a: Seq<u8>, w: nat, h: nat, p: int)
    requires
        w > 0,
        h > 0,
        0 <= p < w * h,
        a.len() >= yuv_len(w, h),
    ensures
        ({
            let ci = (p / w as int / 2) * ((w as int + 1) / 2) + (p % w as int) / 2;
            let y = a[p] as int - 16;
            let d = a[w * h + ci] as int - 128;
            let e = a[w * h + ((w as int + 1) / 2) * ((h as int + 1) / 2) + ci] as int - 128;
            let clamp = |x: int| if x < 0 { 0int } else if x > 255 { 255int } else { x };
            &&& yuv_rgba_byte(a, w, h, 4 * p) as int == clamp((298 * y + 409 * e + 128) / 256)
            &&& yuv_rgba_byte(a, w, h, 4 * p + 1) as int == clamp((298 * y - 100 * d - 208 * e + 128) / 256)
            &&& yuv_rgba_byte(a, w, h, 4 * p + 2) as int == clamp((298 * y + 516 * d + 128) / 256)
        }),
{
    lemma_yuv_pixel_indices(w, h, p);
    assert(chroma_dim(w) == (w as int + 1) / 2);
    assert(chroma_dim(h) == (h as int + 1) / 2);
}

/// Bytes a `w × h` YUV420p picture needs.
pub open spec fn yuv_len(w: nat, h: nat) -> nat {
    w * h + 2 * (chroma_dim(w) * chroma_dim(h))
}

/// `x / 256`, rounding down.
fn floor_div_256(x: i32) -> (r: i32)
    requires
        -0x40000 <= x <= 0x40000,
    ensures
        r == x as int / 256,
{
    let r = (x + 0x40000) / 256 - 0x400;
    assert(r == x as int / 256) by (nonlinear_arith)
        requires
            r == (x + 0x40000) / 256 - 0x400,
            -0x40000 <= x <= 0x40000,
    ;
    r
}

/// `x` clamped to `0..=255`.
fn clamp_byte(x: i32) -> (r: u8)
    ensures
        r == clamp_u8(x as int),
{
    if x < 0 {
        0
    } else if x > 255 {
        255
    } else {
        x as u8
    }
}

/// Converts one pixel.
fn convert_pixel(y: u8, cb: u8, cr: u8) -> (r: (u8, u8, u8))
    ensures
        r.0 == bt601(y, cb, cr, 0),
        r.1 == bt601(y, cb, cr, 1),
        r.2 == bt601(y, cb, cr, 2),
{
    let yy = y as i32 - 16;
    let d = cb as i32 - 128;
    let e = cr as i32 - 128;
    let r = floor_div_256(298 * yy + 409 * e + 128);
    let g = floor_div_256(298 * yy - 100 * d - 208 * e + 128);
    let b = floor_div_256(298 * yy + 516 * d + 128);
    (clamp_byte(r), clamp_byte(g), clamp_byte(b))
}

/// BT.601 limited-range YUV420p (contiguous Y, Cb, Cr planes) to RGBA8.
///
/// # Errors
/// Returns [`AssetError::Codec`] when `data` is shorter than a
/// `width × height` YUV420p picture.
pub fn yuv420p_to_rgba(data: &[u8], width: u32, height: u32) -> (r: Result<Vec<u8>, AssetError>)
    requires
        width as int * height as int * 4 <= usize::MAX,
    ensures
        data@.len() >= yuv_len(width as nat, height as nat) <==> r is Ok,
        r matches Err(e) ==> e is Codec,
        r matches Ok(v) ==> v@.len() == width as int * height as int * 4 && forall|k: int|
            0 <= k < v@.len() ==> #[trigger] v@[k] == yuv_rgba_byte(
                data@,
                width as nat,
                height as nat,
                k,
            ),
{
    let w = width as usize;
    let h = height as usize;
    let cw = w / 2 + w % 2;
    let ch = h / 2 + h % 2;
    proof {
        assert(cw == chroma_dim(w as nat));
        assert(ch == chroma_dim(h as nat));
        assert(cw * ch <= w * h) by (nonlinear_arith)
            requires
                cw <= w,
                ch <= h,
        ;
    }
    let y_len = w * h;
    let c_len = cw * ch;
    if data.len() < y_len + 2 * c_len {
        return Err(AssetError::codec("YUV420p frame too small"));
    }
    let total = w * h * 4;
    let mut rgba: Vec<u8> = Vec::new();
    let mut k: usize = 0;
    while k < total
        invariant
            rgba@.len() == k,
            k <= total,
            total == w * h * 4,
            forall|i: int| 0 <= i < k ==> #[trigger] rgba@[i] == 0u8,
        decreases total - k,
    {
        rgba.push(0);
        k += 1;
    }
    let mut row: usize = 0;
    while row < h
        invariant
            w == width,
            h == height,
            cw == chroma_dim(w as nat),
            ch == chroma_dim(h as nat),
            y_len == w * h,
            c_len == cw * ch,
            data@.len() >= y_len + 2 * c_len,
            rgba@.len() == w * h * 4,
            w * h * 4 <= usize::MAX,
            row <= h,
            forall|i: int|
                0 <= i < (row * w) * 4 ==> #[trigger] rgba@[i] == yuv_rgba_byte(
                    data@,
                    w as nat,
                    h as nat,
                    i,
                ),
        decreases h - row,
    {
        let mut col: usize = 0;
        while col < w
            invariant
                w == width,
                h == height,
                cw == chroma_dim(w as nat),
                ch == chroma_dim(h as nat),
                y_len == w * h,
                c_len == cw * ch,
                data@.len() >= y_len + 2 * c_len,
                rgba@.len() == w * h * 4,
                w * h * 4 <= usize::MAX,
                row < h,
                col <= w,
                forall|i: int|
                    0 <= i < (row * w + col) * 4 ==> #[trigger] rgba@[i] == yuv_rgba_byte(
                        data@,
                        w as nat,
                        h as nat,
                        i,
                    ),
            decreases w - col,
        {
            proof {
                assert((row * w + col) * 4 + 4 <= w * h * 4) by (nonlinear_arith)
                    requires
                        row < h,
                        col < w,
                ;
                assert(row * w + col < w * h) by (nonlinear_arith)
                    requires
                        row < h,
                        col < w,
                ;
                assert((row / 2) * cw + col / 2 < cw * ch) by (nonlinear_arith)
                    requires
                        cw == (w + 1) / 2,
                        ch == (h + 1) / 2,
                        row < h,
                        col < w,
                ;
                lemma_pixel_index(w as int, col as int, row as int, 0);
                lemma_pixel_index(w as int, col as int, row as int, 1);
                lemma_pixel_index(w as int, col as int, row as int, 2);
                lemma_pixel_index(w as int, col as int, row as int, 3);
            }
            let ci = (row / 2) * cw + col / 2;
            let yv = data[row * w + col];
            let cb = data[y_len + ci];
            let cr = data[y_len + c_len + ci];
            let (r, g, b) = convert_pixel(yv, cb, cr);
            let offset = (row * w + col) * 4;
            rgba.set(offset, r);
            rgba.set(offset + 1, g);
            rgba.set(offset + 2, b);
            rgba.set(offset + 3, 255);
            col += 1;
        }
        proof {
            assert((row * w + w) * 4 == ((row + 1) * w) * 4) by (nonlinear_arith);
        }
        row += 1;
    }
    proof {
        assert((h * w) * 4 == w * h * 4) by (nonlinear_arith);
    }
    Ok(rgba)
}

} // verus!
