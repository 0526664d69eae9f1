//! The synthetic `TKV1` video container: a fixed 24-byte header followed
//! by raw RGBA8 frames of a fixed size, so random access is arithmetic.
//!
//! ```text
//! offset 0   magic "TKV1"
//! offset 4   width       u32 LE
//! offset 8   height      u32 LE
//! offset 12  frame_rate  f64 LE
//! offset 20  frame_count u32 LE   (patched when the encoder finishes)
//! offset 24  frames
//! ```

use vstd::bytes::*;
use vstd::prelude::*;

use crate::container::valid_rate_bits;

verus! {

broadcast use vstd::seq::group_seq_axioms;

/// Fixed header length in bytes.
pub const HEADER_LEN: u64 = 24;

/// Decode/encode failures.
#[derive(Debug)]
pub enum Error {
    /// Underlying I/O failure.
    Io(std::io::Error),
    /// The file is not a supported video container, or a frame does not
    /// match the stream.
    Format(String),
}

/// `"TKV1"`.
pub open spec fn tkv_magic() -> Seq<u8> {
    seq![0x54u8, 0x4bu8, 0x56u8, 0x31u8]
}

/// The stream parameters a TKV header holds.
#[derive(Debug, Clone, Copy, PartialEq, Eq, Structural)]
pub struct TkvHeader {
    /// Frame width in pixels.
    pub width: u32,
    /// Frame height in pixels.
    pub height: u32,
    /// Frames per second (IEEE-754 bits).
    pub frame_rate: u64,
    /// Number of frames.
    pub frame_count: u32,
}

/// The 24-byte representation of a header.
pub open spec fn spec_tkv_header_bytes(h: TkvHeader) -> Seq<u8> {
    tkv_magic() + spec_u32_to_le_bytes(h.width) + spec_u32_to_le_bytes(h.height)
        + spec_u64_to_le_bytes(h.frame_rate) + spec_u32_to_le_bytes(h.frame_count)
}

/// The header a 24-byte block holds, if valid: magic, non-zero size, and a
/// positive finite frame rate.
pub open spec fn spec_parse_tkv_header(raw: Seq<u8>) -> Option<TkvHeader> {
    let h = TkvHeader {
        width: spec_u32_from_le_bytes(raw.subrange(4, 8)),
        height: spec_u32_from_le_bytes(raw.subrange(8, 12)),
        frame_rate: spec_u64_from_le_bytes(raw.subrange(12, 20)),
        frame_count: spec_u32_from_le_bytes(raw.subrange(20, 24)),
    };
    if raw.subrange(0, 4) == tkv_magic() && h.width != 0 && h.height != 0 && valid_rate_bits(
        h.frame_rate,
    ) {
        Some(h)
    } else {
        None
    }
}

impl TkvHeader {
    /// Parses and validates the 24-byte header.
    ///
    /// # Errors
    /// Returns [`Error::Format`] for a missing magic, a zero-sized frame, or
    /// a frame rate that is not positive and finite.
    pub fn parse(raw: &[u8; 24]) -> (r: Result<TkvHeader, Error>)
        ensures
            match spec_parse_tkv_header(raw@) {
                Some(h) => r matches Ok(x) && x == h,
                None => r matches Err(Error::Format(_)),
            },
    {
        if !(raw[0] == 0x54 && raw[1] == 0x4b && raw[2] == 0x56 && raw[3] == 0x31) {
            proof {
                if raw@.subrange(0, 4) == tkv_magic() {
                    assert(raw@.subrange(0, 4)[0] == raw@[0]);
                    assert(raw@.subrange(0, 4)[1] == raw@[1]);
                    assert(raw@.subrange(0, 4)[2] == raw@[2]);
                    assert(raw@.subrange(0, 4)[3] == raw@[3]);
                }
            }
            return Err(Error::Format(String::from_str("missing TKV1 magic")));
        }
        proof {
            assert(raw@.subrange(0, 4) =~= tkv_magic());
        }
        let s = raw.as_slice();
        let h = TkvHeader {
            width: u32_from_le_bytes(vstd::slice::slice_subrange(s, 4, 8)),
            height: u32_from_le_bytes(vstd::slice::slice_subrange(s, 8, 12)),
            frame_rate: u64_from_le_bytes(vstd::slice::slice_subrange(s, 12, 20)),
            frame_count: u32_from_le_bytes(vstd::slice::slice_subrange(s, 20, 24)),
        };
        if h.width == 0 || h.height == 0 {
            return Err(Error::Format(String::from_str("zero-sized frame")));
        }
        if !(0 < h.frame_rate && h.frame_rate < 0x7FF0_0000_0000_0000) {
            return Err(Error::Format(String::from_str("invalid frame rate")));
        }
        Ok(h)
    }

    /// Serializes the header.
    pub fn bytes(&self) -> (r: Vec<u8>)
        ensures
            r@ == spec_tkv_header_bytes(*self),
    {
        let mut out: Vec<u8> = Vec::new();
        out.push(0x54);
        out.push(0x4b);
        out.push(0x56);
        out.push(0x31);
        let mut w = u32_to_le_bytes(self.width);
        out.append(&mut w);
        let mut h = u32_to_le_bytes(self.height);
        out.append(&mut h);
        let mut f = u64_to_le_bytes(self.frame_rate);
        out.append(&mut f);
        let mut c = u32_to_le_bytes(self.frame_count);
        out.append(&mut c);
        proof {
            assert(out@ =~= spec_tkv_header_bytes(*self));
        }
        out
    }
}

/// Parsing the bytes of a header gives it back, exactly when its size is
/// non-zero and its rate positive and finite.
pub proof fn lemma_tkv_header_roundtrip(h: TkvHeader)
    ensures
        spec_tkv_header_bytes(h).len() == 24,
        spec_parse_tkv_header(spec_tkv_header_bytes(h)) == if h.width != 0 && h.height != 0
            && valid_rate_bits(h.frame_rate) {
            Some(h)
        } else {
            None
        },
{
    lemma_auto_spec_u32_to_from_le_bytes();
    lemma_auto_spec_u64_to_from_le_bytes();
    let b = spec_tkv_header_bytes(h);
    assert(b.subrange(0, 4) =~= tkv_magic());
    assert(b.subrange(4, 8) =~= spec_u32_to_le_bytes(h.width));
    assert(b.subrange(8, 12) =~= spec_u32_to_le_bytes(h.height));
    assert(b.subrange(12, 20) =~= spec_u64_to_le_bytes(h.frame_rate));
    assert(b.subrange(20, 24) =~= spec_u32_to_le_bytes(h.frame_count));
}

/// Checks encoder parameters.
///
/// # Errors
/// Returns [`Error::Format`] for a zero-sized frame or a frame rate that is
/// not positive and finite.
pub fn check_encoder_params(width: u32, height: u32, frame_rate: u64) -> (r: Result<(), Error>)
    ensures
        r is Ok <==> width != 0 && height != 0 && valid_rate_bits(frame_rate),
        r matches Err(e) ==> e is Format,
{
    if width == 0 || height == 0 {
        return Err(Error::Format(String::from_str("zero-sized frame")));
    }
    if !(0 < frame_rate && frame_rate < 0x7FF0_0000_0000_0000) {
        return Err(Error::Format(String::from_str("invalid frame rate")));
    }
    Ok(())
}

/// Bytes of one RGBA8 frame.
pub fn frame_bytes(width: u32, height: u32) -> (r: u64)
    requires
        width as int * height as int * 4 <= u64::MAX,
    ensures
        r == width as int * height as int * 4,
{
    width as u64 * height as u64 * 4
}

/// Offset of frame `index` in the file.
pub fn frame_offset(width: u32, height: u32, index: u32) -> (r: u64)
    requires
        width as int * height as int * 4 <= u64::MAX,
        HEADER_LEN + index as int * (width as int * height as int * 4) <= u64::MAX,
    ensures
        r == HEADER_LEN + index as int * (width as int * height as int * 4),
{
    HEADER_LEN + index as u64 * frame_bytes(width, height)
}

/// Checks that a frame fits an encoder of the given size.
///
/// # Errors
/// Returns [`Error::Format`] when the dimensions differ or the pixel data
/// is not `width * height * 4` bytes.
pub fn check_frame(enc_width: u32, enc_height: u32, width: u32, height: u32, data_len: usize) -> (r: Result<(), Error>)
    requires
        enc_width as int * enc_height as int * 4 <= u64::MAX,
    ensures
        r is Ok <==> width == enc_width && height == enc_height && data_len == enc_width as int
            * enc_height as int * 4,
        r matches Err(e) ==> e is Format,
{
    if width != enc_width || height != enc_height {
        return Err(Error::Format(String::from_str("frame size does not match encoder")));
    }
    let expected = frame_bytes(enc_width, enc_height);
    if data_len as u64 != expected {
        return Err(Error::Format(String::from_str("frame data length does not match")));
    }
    Ok(())
}

// ---------------------------------------------------------------------------
// Test pattern
// ---------------------------------------------------------------------------

/// The column of the moving band in frame `index`.
pub open spec fn band_x(index: u32, width: u32) -> int {
    (index as int * 3) % width as int
}

/// Channel `c` of pixel `(x, y)` in frame `index` of the gradient pattern:
/// red grows left to right, green top to bottom, blue is 32, alpha opaque,
/// and a two-column white band moves three columns per frame.
pub open spec fn gradient_value(index: u32, width: u32, height: u32, x: int, y: int, c: int) -> u8 {
    if (x == band_x(index, width) || x == band_x(index, width) + 1) {
        255
    } else if c == 0 {
        (x * 255 / width as int) as u8
    } else if c == 1 {
        (y * 255 / height as int) as u8
    } else if c == 2 {
        32
    } else {
        255
    }
}

/// Byte `k` of a frame of the gradient pattern, with pixels laid out row
/// by row, four channels each.
pub open spec fn gradient_byte(index: u32, width: u32, height: u32, k: int) -> u8 {
    gradient_value(index, width, height, (k / 4) % width as int, (k / 4) / width as int, k % 4)
}

/// Byte `(y * w + x) * 4 + c` is channel `c` of pixel `(x, y)`.
pub proof fn lemma_pixel_index(w: int, x: int, y: int, c: int)
    requires
        0 <= x < w,
        0 <= y,
        0 <= c < 4,
    ensures
        ((y * w + x) * 4 + c) / 4 == y * w + x,
        ((y * w + x) * 4 + c) % 4 == c,
        (y * w + x) / w == y,
        (y * w + x) % w == x,
{
    vstd::arithmetic::div_mod::lemma_fundamental_div_mod_converse((y * w + x) * 4 + c, 4, y * w + x, c);
    vstd::arithmetic::div_mod::lemma_fundamental_div_mod_converse(y * w + x, w, y, x);
}

/// A painter that draws a red/green gradient with a moving white vertical
/// band, so consecutive frames differ and thumbnails are distinguishable.
pub fn gradient_painter(index: u32, width: u32, height: u32, data: &mut [u8])
    requires
        width > 0,
        width as int * height as int * 4 <= old(data)@.len(),
    ensures
        final(data)@.len() == old(data)@.len(),
        forall|k: int|
            0 <= k < width as int * height as int * 4 ==> #[trigger] final(data)@[k] == gradient_byte(
                index,
                width,
                height,
                k,
            ),
        forall|k: int|
            width as int * height as int * 4 <= k < old(data)@.len() ==> #[trigger] final(data)@[k]
                == old(data)@[k],
{
    let band = ((index as u64 * 3) % width as u64) as usize;
    let w = width as usize;
    let h = height as usize;
    let mut y: usize = 0;
    while y < h
        invariant
            w == width,
            h == height,
            width > 0,
            band == band_x(index, width),
            w * h * 4 <= data.len(),
            data@.len() == old(data)@.len(),
            y <= h,
            forall|k: int|
                0 <= k < (y * w) * 4 ==> #[trigger] data@[k] == gradient_byte(index, width, height, k),
            forall|k: int| w * h * 4 <= k < data@.len() ==> #[trigger] data@[k] == old(data)@[k],
        decreases h - y,
    {
        let mut x: usize = 0;
        while x < w
            invariant
                w == width,
                h == height,
                width > 0,
                band == band_x(index, width),
                w * h * 4 <= data.len(),
                data@.len() == old(data)@.len(),
                y < h,
                x <= w,
                forall|k: int|
                    0 <= k < (y * w + x) * 4 ==> #[trigger] data@[k] == gradient_byte(
                        index,
                        width,
                        height,
                        k,
                    ),
                forall|k: int| w * h * 4 <= k < data@.len() ==> #[trigger] data@[k] == old(data)@[k],
            decreases w - x,
        {
            proof {
                assert((y * w + x) * 4 + 4 <= w * h * 4) by (nonlinear_arith)
                    requires
                        y < h,
                        x < w,
                ;
                lemma_pixel_index(w as int, x as int, y as int, 0);
                lemma_pixel_index(w as int, x as int, y as int, 1);
                lemma_pixel_index(w as int, x as int, y as int, 2);
                lemma_pixel_index(w as int, x as int, y as int, 3);
            }
            let offset = (y * w + x) * 4;
            let r = (x as u64 * 255 / width as u64) as u8;
            let g = (y as u64 * 255 / height as u64) as u8;
            if x == band || x == band + 1 {
                data[offset] = 255;
                data[offset + 1] = 255;
                data[offset + 2] = 255;
                data[offset + 3] = 255;
            } else {
                data[offset] = r;
                data[offset + 1] = g;
                data[offset + 2] = 32;
                data[offset + 3] = 255;
            }
            x += 1;
        }
        proof {
            assert((y * w + w) * 4 == ((y + 1) * w) * 4) by (nonlinear_arith);
        }
        y += 1;
    }
    proof {
        assert((h * w) * 4 == w * h * 4) by (nonlinear_arith);
    }
}

} // verus!
