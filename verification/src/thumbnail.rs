//! Video thumbnail cache layout: `thumbnails/{asset_hash}/NNNNNN.jpg` (one
//! JPEG per interval, the index zero-padded to six digits) plus a `meta`
//! sidecar recording interval and resolution:
//!
//! ```text
//! offset 0   magic "TPTTHMB1"
//! offset 8   interval_secs f64 LE
//! offset 16  width  u32 LE
//! offset 20  height u32 LE
//! ```

use vstd::bytes::*;
use vstd::prelude::*;

use crate::container::valid_rate_bits;
use crate::model::AssetError;
use crate::text::{chars_of, dec_padded, fmt_dec_padded, lemma_parse_dec, parse_u64, spec_parse_unsigned};

verus! {

broadcast use vstd::seq::group_seq_axioms;

/// Length of the `meta` sidecar.
pub const META_LEN: usize = 24;

/// `"TPTTHMB1"`.
pub open spec fn meta_magic() -> Seq<u8> {
    seq![0x54u8, 0x50u8, 0x54u8, 0x54u8, 0x48u8, 0x4du8, 0x42u8, 0x31u8]
}

/// The sidecar bytes for an interval (IEEE-754 bits) and resolution.
pub open spec fn spec_meta_bytes(interval: u64, resolution: (u32, u32)) -> Seq<u8> {
    meta_magic() + spec_u64_to_le_bytes(interval) + spec_u32_to_le_bytes(resolution.0)
        + spec_u32_to_le_bytes(resolution.1)
}

/// The interval and resolution a sidecar holds, if it is long enough and
/// starts with the magic.
pub open spec fn spec_parse_meta(raw: Seq<u8>) -> Option<(u64, (u32, u32))> {
    if raw.len() >= 24 && raw.subrange(0, 8) == meta_magic() {
        Some(
            (
                spec_u64_from_le_bytes(raw.subrange(8, 16)),
                (
                    spec_u32_from_le_bytes(raw.subrange(16, 20)),
                    spec_u32_from_le_bytes(raw.subrange(20, 24)),
                ),
            ),
        )
    } else {
        None
    }
}

/// Checks the parameters of a new thumbnail cache.
///
/// # Errors
/// Returns [`AssetError::Validation`] for an interval that is not positive
/// and finite, or a zero resolution.
pub fn check_thumbnail_params(interval: u64, resolution: (u32, u32)) -> (r: Result<(), AssetError>)
    ensures
        r is Ok <==> valid_rate_bits(interval) && resolution.0 != 0 && resolution.1 != 0,
        r matches Err(e) ==> e is Validation,
{
    if !(0 < interval && interval < 0x7FF0_0000_0000_0000) {
        return Err(AssetError::validation("invalid thumbnail interval"));
    }
    if resolution.0 == 0 || resolution.1 == 0 {
        return Err(AssetError::validation("invalid thumbnail resolution"));
    }
    Ok(())
}

/// Serializes the `meta` sidecar.
pub fn encode_meta(interval: u64, resolution: (u32, u32)) -> (r: Vec<u8>)
    ensures
        r@ == spec_meta_bytes(interval, resolution),
        r@.len() == 24,
{
    let mut out: Vec<u8> = Vec::new();
    out.push(0x54);
    out.push(0x50);
    out.push(0x54);
    out.push(0x54);
    out.push(0x48);
    out.push(0x4d);
    out.push(0x42);
    out.push(0x31);
    let mut i = u64_to_le_bytes(interval);
    out.append(&mut i);
    let mut w = u32_to_le_bytes(resolution.0);
    out.append(&mut w);
    let mut h = u32_to_le_bytes(resolution.1);
    out.append(&mut h);
    proof {
        assert(out@ =~= spec_meta_bytes(interval, resolution));
    }
    out
}

/// Parses the `meta` sidecar: `(interval bits, (width, height))`.
///
/// # Errors
/// Returns [`AssetError::Validation`] for a sidecar that is too short or
/// lacks the magic.
pub fn decode_meta(raw: &[u8]) -> (r: Result<(u64, (u32, u32)), AssetError>)
    ensures
        match spec_parse_meta(raw@) {
            Some(m) => r matches Ok(x) && x == m,
            None => r matches Err(AssetError::Validation(_)),
        },
{
    if raw.len() < 24 {
        return Err(AssetError::validation("corrupt thumbnail meta"));
    }
    let expect: [u8; 8] = [0x54, 0x50, 0x54, 0x54, 0x48, 0x4d, 0x42, 0x31];
    proof {
        assert(expect@ =~= meta_magic());
    }
    let mut i: usize = 0;
    while i < 8
        invariant
            i <= 8,
            raw@.len() >= 24,
            expect@ == meta_magic(),
            forall|k: int| 0 <= k < i ==> raw@[k] == meta_magic()[k],
        decreases 8 - i,
    {
        if raw[i] != expect[i] {
            proof {
                assert(raw@.subrange(0, 8)[i as int] != meta_magic()[i as int]);
            }
            return Err(AssetError::validation("corrupt thumbnail meta"));
        }
        i += 1;
    }
    proof {
        assert(raw@.subrange(0, 8) =~= meta_magic());
    }
    let interval = u64_from_le_bytes(vstd::slice::slice_subrange(raw, 8, 16));
    let w = u32_from_le_bytes(vstd::slice::slice_subrange(raw, 16, 20));
    let h = u32_from_le_bytes(vstd::slice::slice_subrange(raw, 20, 24));
    Ok((interval, (w, h)))
}

/// Parsing a written sidecar gives back its interval and resolution.
pub proof fn lemma_meta_roundtrip(interval: u64, resolution: (u32, u32))
    ensures
        spec_parse_meta(spec_meta_bytes(interval, resolution)) == Some((interval, resolution)),
{
    lemma_auto_spec_u32_to_from_le_bytes();
    lemma_auto_spec_u64_to_from_le_bytes();
    let b = spec_meta_bytes(interval, resolution);
    assert(b.subrange(0, 8) =~= meta_magic());
    assert(b.subrange(8, 16) =~= spec_u64_to_le_bytes(interval));
    assert(b.subrange(16, 20) =~= spec_u32_to_le_bytes(resolution.0));
    assert(b.subrange(20, 24) =~= spec_u32_to_le_bytes(resolution.1));
}

/// `".jpg"`.
pub open spec fn jpg_suffix() -> Seq<char> {
    seq!['.', 'j', 'p', 'g']
}

/// The file name of thumbnail `index`: the index zero-padded to six
/// digits, then `.jpg`.
pub open spec fn spec_file_name(index: u64) -> Seq<char> {
    dec_padded(index as nat, 6) + jpg_suffix()
}

/// The thumbnail index a file name gives: a `.jpg` name whose stem parses
/// as a `u64`.
pub open spec fn spec_index_of(name: Seq<char>) -> Option<u64> {
    if name.len() >= 4 && name.subrange(name.len() - 4, name.len() as int) == jpg_suffix() {
        match spec_parse_unsigned(name.subrange(0, name.len() - 4), u64::MAX as nat) {
            Some(v) => Some(v as u64),
            None => None,
        }
    } else {
        None
    }
}

/// The file name of thumbnail `index` (`{index:06}.jpg`).
pub fn file_name_for_index(index: u64) -> (r: String)
    ensures
        r@ == spec_file_name(index),
{
    let mut s = fmt_dec_padded(index, 6);
    proof {
        reveal_strlit(".jpg");
        assert(".jpg"@ =~= jpg_suffix());
    }
    s.append(".jpg");
    s
}

/// The thumbnail index of a cache file name, if it is one.
pub fn index_of_file_name(name: &str) -> (r: Option<u64>)
    ensures
        r == spec_index_of(name@),
{
    let cs = chars_of(name);
    let n = cs.len();
    if n < 4 || !(cs[n - 4] == '.' && cs[n - 3] == 'j' && cs[n - 2] == 'p' && cs[n - 1] == 'g') {
        proof {
            if name@.len() >= 4 && name@.subrange(name@.len() - 4, name@.len() as int) == jpg_suffix() {
                assert(name@.subrange(name@.len() - 4, name@.len() as int)[0] == name@[n - 4]);
                assert(name@.subrange(name@.len() - 4, name@.len() as int)[1] == name@[n - 3]);
                assert(name@.subrange(name@.len() - 4, name@.len() as int)[2] == name@[n - 2]);
                assert(name@.subrange(name@.len() - 4, name@.len() as int)[3] == name@[n - 1]);
            }
        }
        return None;
    }
    proof {
        assert(name@.subrange(n - 4, n as int) =~= jpg_suffix());
    }
    let stem = name.substring_char(0, n - 4);
    parse_u64(stem)
}

/// The thumbnail indices that a directory listing names, in listing
/// order: the names that are thumbnail files, each by its index.
pub open spec fn spec_listed_indices(names: Seq<String>) -> Seq<u64>
    decreases names.len(),
{
    if names.len() == 0 {
        Seq::empty()
    } else {
        let rest = spec_listed_indices(names.drop_last());
        match spec_index_of(names.last()@) {
            Some(i) => rest.push(i),
            None => rest,
        }
    }
}

/// The cached thumbnail indices of a directory listing, ascending: every
/// name that is a thumbnail file contributes its index once, and nothing
/// else is kept.
pub fn cached_indices(names: &Vec<String>) -> (r: Vec<u64>)
    ensures
        forall|i: int, j: int| 0 <= i <= j < r.len() ==> r[i] <= r[j],
        r@.to_multiset() == spec_listed_indices(names@).to_multiset(),
{
    let mut out: Vec<u64> = Vec::new();
    let mut k: usize = 0;
    while k < names.len()
        invariant
            k <= names.len(),
            forall|i: int, j: int| 0 <= i <= j < out.len() ==> out[i] <= out[j],
            out@.to_multiset() == spec_listed_indices(names@.take(k as int)).to_multiset(),
        decreases names.len() - k,
    {
        let ghost before = out@;
        let ghost prev = spec_listed_indices(names@.take(k as int));
        assert(names@.take(k + 1).drop_last() =~= names@.take(k as int));
        assert(names@.take(k + 1).last() == names@[k as int]);
        let found = index_of_file_name(names[k].as_str());
        assert(found == spec_index_of(names@[k as int]@));
        match found {
            Some(x) => {
                let mut p: usize = 0;
                while p < out.len() && out[p] <= x
                    invariant
                        p <= out.len(),
                        forall|q: int| 0 <= q < p ==> out[q] <= x,
                    decreases out.len() - p,
                {
                    p = p + 1;
                }
                proof {
                    assert forall|q: int| p <= q < out.len() implies x < out[q] by {
                        assert(x < out[p as int]);
                    }
                }
                out.insert(p, x);
                proof {
                    assert(out@.remove(p as int) =~= before);
                    assert(out@[p as int] == x);
                    assert(out@.to_multiset() =~= before.to_multiset().insert(x)) by {
                        vstd::seq_lib::to_multiset_remove(out@, p as int);
                        out@.to_multiset_ensures();
                        assert(out@.contains(x));
                        assert(before.to_multiset() == out@.to_multiset().remove(x));
                        assert(out@.to_multiset().count(x) > 0);
                    }
                    assert forall|i: int, j: int| 0 <= i <= j < out.len() implies out[i] <= out[j] by {
                        if i < p && j > p {
                            assert(out[i] == before[i]);
                            assert(out[j] == before[j - 1]);
                        } else if i < p && j < p {
                            assert(out[i] == before[i]);
                            assert(out[j] == before[j]);
                        } else if i > p && j > p {
                            assert(out[i] == before[i - 1]);
                            assert(out[j] == before[j - 1]);
                        } else if i == p && j > p {
                            assert(out[j] == before[j - 1]);
                        } else if i < p && j == p {
                            assert(out[i] == before[i]);
                        }
                    }
                    assert(spec_listed_indices(names@.take(k + 1)) == prev.push(x));
                    vstd::seq_lib::to_multiset_build(prev, x);
                }
            },
            None => {
                assert(spec_listed_indices(names@.take(k + 1)) == prev);
            },
        }
        k = k + 1;
    }
    assert(names@.take(names.len() as int) =~= names@);
    out
}

/// Reading a thumbnail's file name gives back its index.
pub proof fn lemma_file_name_roundtrip(index: u64)
    ensures
        spec_index_of(spec_file_name(index)) == Some(index),
{
    let name = spec_file_name(index);
    let d = dec_padded(index as nat, 6);
    assert(name.subrange(name.len() - 4, name.len() as int) =~= jpg_suffix());
    assert(name.subrange(0, name.len() - 4) =~= d);
    lemma_parse_dec(index as nat, 6, u64::MAX as nat);
}

} // verus!
