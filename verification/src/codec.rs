//! Compact little-endian row codec: fixed-width integers, `u32`-length
//! prefixed byte strings, UTF-8 strings, and flagged optional values.
//!
//! [`Enc`] appends encodings; [`Dec`] reads them back from a cursor and
//! fails cleanly (never panics) on truncated input. The `rd_*` spec
//! functions describe what a read yields at a position, and the lemmas at
//! the end state that every read gives back what the matching write wrote.

use vstd::bytes::*;
use vstd::prelude::*;
use vstd::utf8::*;
use vstd::string::*;

use crate::model::AssetError;

verus! {

broadcast use vstd::seq::group_seq_axioms;

// ---------------------------------------------------------------------------
// Encodings
// ---------------------------------------------------------------------------

/// Encoding of a length-prefixed byte string.
pub open spec fn enc_bytes(v: Seq<u8>) -> Seq<u8> {
    spec_u32_to_le_bytes(v.len() as u32) + v
}

/// Encoding of a string: its UTF-8 bytes, length-prefixed.
pub open spec fn enc_str(v: Seq<char>) -> Seq<u8> {
    enc_bytes(encode_utf8(v))
}

/// Encoding of an optional 64-bit value: presence flag then the value.
pub open spec fn enc_opt_u64(v: Option<u64>) -> Seq<u8> {
    match v {
        Some(x) => seq![1u8] + spec_u64_to_le_bytes(x),
        None => seq![0u8],
    }
}

/// Encoding of an optional string: presence flag then the string.
pub open spec fn enc_opt_str(v: Option<Seq<char>>) -> Seq<u8> {
    match v {
        Some(x) => seq![1u8] + enc_str(x),
        None => seq![0u8],
    }
}

// ---------------------------------------------------------------------------
// Reads at a position
// ---------------------------------------------------------------------------

/// Reads one byte at `p`.
pub open spec fn rd_u8(s: Seq<u8>, p: int) -> Option<(u8, int)> {
    if 0 <= p && p + 1 <= s.len() {
        Some((s[p], p + 1))
    } else {
        None
    }
}

/// Reads a little-endian `u16` at `p`.
pub open spec fn rd_u16(s: Seq<u8>, p: int) -> Option<(u16, int)> {
    if 0 <= p && p + 2 <= s.len() {
        Some((spec_u16_from_le_bytes(s.subrange(p, p + 2)), p + 2))
    } else {
        None
    }
}

/// Reads a little-endian `u32` at `p`.
pub open spec fn rd_u32(s: Seq<u8>, p: int) -> Option<(u32, int)> {
    if 0 <= p && p + 4 <= s.len() {
        Some((spec_u32_from_le_bytes(s.subrange(p, p + 4)), p + 4))
    } else {
        None
    }
}

/// Reads a little-endian `u64` at `p`.
pub open spec fn rd_u64(s: Seq<u8>, p: int) -> Option<(u64, int)> {
    if 0 <= p && p + 8 <= s.len() {
        Some((spec_u64_from_le_bytes(s.subrange(p, p + 8)), p + 8))
    } else {
        None
    }
}

/// Reads a length-prefixed byte string at `p`.
pub open spec fn rd_bytes(s: Seq<u8>, p: int) -> Option<(Seq<u8>, int)> {
    match rd_u32(s, p) {
        Some((n, q)) => if q + n <= s.len() {
            Some((s.subrange(q, q + n), q + n))
        } else {
            None
        },
        None => None,
    }
}

/// Reads a length-prefixed UTF-8 string at `p`.
pub open spec fn rd_str(s: Seq<u8>, p: int) -> Option<(Seq<char>, int)> {
    match rd_bytes(s, p) {
        Some((b, q)) => if valid_utf8(b) {
            Some((decode_utf8(b), q))
        } else {
            None
        },
        None => None,
    }
}

/// Reads a flagged optional `u64` at `p` (any flag but 1 means absent).
pub open spec fn rd_opt_u64(s: Seq<u8>, p: int) -> Option<(Option<u64>, int)> {
    match rd_u8(s, p) {
        Some((f, q)) => if f == 1 {
            match rd_u64(s, q) {
                Some((v, r)) => Some((Some(v), r)),
                None => None,
            }
        } else {
            Some((None, q))
        },
        None => None,
    }
}

/// Reads a flagged optional string at `p` (any flag but 1 means absent).
pub open spec fn rd_opt_str(s: Seq<u8>, p: int) -> Option<(Option<Seq<char>>, int)> {
    match rd_u8(s, p) {
        Some((f, q)) => if f == 1 {
            match rd_str(s, q) {
                Some((v, r)) => Some((Some(v), r)),
                None => None,
            }
        } else {
            Some((None, q))
        },
        None => None,
    }
}

// ---------------------------------------------------------------------------
// Trusted conversion
// ---------------------------------------------------------------------------

/// Calls `std::str::from_utf8`: `Ok` exactly for valid UTF-8, and then the
/// string's bytes are the input bytes.
#[verifier::external_body]
fn utf8_to_str(b: &[u8]) -> (r: Option<&str>)
    ensures
        r is Some <==> valid_utf8(b@),
        r matches Some(s) ==> s.spec_bytes() == b@,
{
    std::str::from_utf8(b).ok()
}

// ---------------------------------------------------------------------------
// Encoder
// ---------------------------------------------------------------------------

/// Incremental little-endian row encoder.
pub struct Enc {
    buf: Vec<u8>,
}

impl View for Enc {
    type V = Seq<u8>;

    closed spec fn view(&self) -> Seq<u8> {
        self.buf@
    }
}

impl Enc {
    /// An empty encoder.
    pub fn new() -> (e: Enc)
        ensures
            e@ == Seq::<u8>::empty(),
    {
        Enc { buf: Vec::new() }
    }

    /// Appends one byte.
    pub fn u8(&mut self, v: u8)
        ensures
            final(self)@ == old(self)@.push(v),
    {
        self.buf.push(v);
    }

    fn append(&mut self, bytes: Vec<u8>)
        ensures
            final(self)@ == old(self)@ + bytes@,
    {
        let mut bytes = bytes;
        self.buf.append(&mut bytes);
    }

    /// Appends a little-endian `u16`.
    pub fn u16(&mut self, v: u16)
        ensures
            final(self)@ == old(self)@ + spec_u16_to_le_bytes(v),
    {
        self.append(u16_to_le_bytes(v));
    }

    /// Appends a little-endian `u32`.
    pub fn u32(&mut self, v: u32)
        ensures
            final(self)@ == old(self)@ + spec_u32_to_le_bytes(v),
    {
        self.append(u32_to_le_bytes(v));
    }

    /// Appends a little-endian `u64`.
    pub fn u64(&mut self, v: u64)
        ensures
            final(self)@ == old(self)@ + spec_u64_to_le_bytes(v),
    {
        self.append(u64_to_le_bytes(v));
    }

    /// Appends a 64-bit float given by its IEEE-754 bit pattern (the same
    /// eight little-endian bytes as the float itself).
    pub fn f64_bits(&mut self, bits: u64)
        ensures
            final(self)@ == old(self)@ + spec_u64_to_le_bytes(bits),
    {
        self.u64(bits);
    }

    /// Appends a `u32` length prefix followed by the bytes. The prefix holds
    /// the length truncated to 32 bits.
    pub fn bytes(&mut self, v: &[u8])
        ensures
            final(self)@ == old(self)@ + spec_u32_to_le_bytes(v@.len() as u32) + v@,
    {
        let n = v.len() as u32;
        self.u32(n);
        let ghost mid = self@;
        let mut i: usize = 0;
        while i < v.len()
            invariant
                i <= v.len(),
                self@ == mid + v@.subrange(0, i as int),
            decreases v.len() - i,
        {
            self.buf.push(v[i]);
            proof {
                assert(v@.subrange(0, i + 1) == v@.subrange(0, i as int).push(v@[i as int]));
            }
            i += 1;
        }
        proof {
            assert(v@.subrange(0, v@.len() as int) == v@);
        }
    }

    /// Appends a string as length-prefixed UTF-8.
    pub fn str(&mut self, v: &str)
        ensures
            final(self)@ == old(self)@ + spec_u32_to_le_bytes(encode_utf8(v@).len() as u32)
                + encode_utf8(v@),
    {
        self.bytes(v.as_bytes());
    }

    /// Appends an optional `u64`: flag 1 then the value, or flag 0.
    pub fn opt_u64(&mut self, v: Option<u64>)
        ensures
            final(self)@ == old(self)@ + enc_opt_u64(v),
    {
        match v {
            Some(x) => {
                self.u8(1);
                self.u64(x);
                proof {
                    assert(self@ =~= old(self)@ + enc_opt_u64(v));
                }
            },
            None => {
                self.u8(0);
                proof {
                    assert(self@ =~= old(self)@ + enc_opt_u64(v));
                }
            },
        }
    }

    /// Appends an optional float given by its bit pattern.
    pub fn opt_f64(&mut self, v: Option<u64>)
        ensures
            final(self)@ == old(self)@ + enc_opt_u64(v),
    {
        self.opt_u64(v);
    }

    /// Appends an optional string: flag 1 then the string, or flag 0.
    pub fn opt_str(&mut self, v: Option<&str>)
        ensures
            final(self)@ == old(self)@ + match v {
                Some(s) => seq![1u8] + spec_u32_to_le_bytes(encode_utf8(s@).len() as u32)
                    + encode_utf8(s@),
                None => seq![0u8],
            },
    {
        match v {
            Some(s) => {
                self.u8(1);
                self.str(s);
                proof {
                    assert(self@ =~= old(self)@ + (seq![1u8] + spec_u32_to_le_bytes(
                        encode_utf8(s@).len() as u32,
                    ) + encode_utf8(s@)));
                }
            },
            None => {
                self.u8(0);
                proof {
                    assert(self@ =~= old(self)@ + seq![0u8]);
                }
            },
        }
    }

    /// The encoded bytes.
    pub fn finish(self) -> (r: Vec<u8>)
        ensures
            r@ == self@,
    {
        self.buf
    }
}

// ---------------------------------------------------------------------------
// Decoder
// ---------------------------------------------------------------------------

/// Row decoder over a borrowed byte slice.
pub struct Dec<'a> {
    data: &'a [u8],
    pos: usize,
}

impl<'a> Dec<'a> {
    #[verifier::type_invariant]
    spec fn inv(self) -> bool {
        self.pos <= self.data@.len()
    }

    /// The bytes being decoded.
    pub closed spec fn data(self) -> Seq<u8> {
        self.data@
    }

    /// The read position.
    pub closed spec fn pos(self) -> int {
        self.pos as int
    }

    /// A decoder at the start of `data`.
    pub fn new(data: &'a [u8]) -> (d: Dec<'a>)
        ensures
            d.data() == data@,
            d.pos() == 0,
    {
        Dec { data, pos: 0 }
    }

    fn take(&mut self, n: usize) -> (r: Result<&'a [u8], AssetError>)
        ensures
            final(self).data() == old(self).data(),
            old(self).pos() + n <= old(self).data().len() ==> (r matches Ok(s) && s@
                == old(self).data().subrange(old(self).pos(), old(self).pos() + n)),
            old(self).pos() + n <= old(self).data().len() ==> final(self).pos() == old(self).pos() + n,
            old(self).pos() + n > old(self).data().len() ==> r matches Err(AssetError::Db(_)),
            old(self).pos() + n > old(self).data().len() ==> final(self).pos() == old(self).pos(),
    {
        proof {
            use_type_invariant(&*self);
        }
        if n > self.data.len() - self.pos {
            return Err(AssetError::db("corrupt row: truncated"));
        }
        let end = self.pos + n;
        let slice = vstd::slice::slice_subrange(self.data, self.pos, end);
        self.pos = end;
        Ok(slice)
    }

    /// Reads one byte.
    pub fn u8(&mut self) -> (r: Result<u8, AssetError>)
        ensures
            final(self).data() == old(self).data(),
            match rd_u8(old(self).data(), old(self).pos()) {
                Some((v, q)) => r matches Ok(x) && x == v && final(self).pos() == q,
                None => r matches Err(AssetError::Db(_)) && final(self).pos() == old(self).pos(),
            },
    {
        proof {
            use_type_invariant(&*self);
        }
        let s = self.take(1)?;
        Ok(s[0])
    }

    /// Reads a little-endian `u16`.
    pub fn u16(&mut self) -> (r: Result<u16, AssetError>)
        ensures
            final(self).data() == old(self).data(),
            match rd_u16(old(self).data(), old(self).pos()) {
                Some((v, q)) => r matches Ok(x) && x == v && final(self).pos() == q,
                None => r matches Err(AssetError::Db(_)) && final(self).pos() == old(self).pos(),
            },
    {
        proof {
            use_type_invariant(&*self);
        }
        let s = self.take(2)?;
        Ok(u16_from_le_bytes(s))
    }

    /// Reads a little-endian `u32`.
    pub fn u32(&mut self) -> (r: Result<u32, AssetError>)
        ensures
            final(self).data() == old(self).data(),
            match rd_u32(old(self).data(), old(self).pos()) {
                Some((v, q)) => r matches Ok(x) && x == v && final(self).pos() == q,
                None => r matches Err(AssetError::Db(_)) && final(self).pos() == old(self).pos(),
            },
    {
        proof {
            use_type_invariant(&*self);
        }
        let s = self.take(4)?;
        Ok(u32_from_le_bytes(s))
    }

    /// Reads a little-endian `u64`.
    pub fn u64(&mut self) -> (r: Result<u64, AssetError>)
        ensures
            final(self).data() == old(self).data(),
            match rd_u64(old(self).data(), old(self).pos()) {
                Some((v, q)) => r matches Ok(x) && x == v && final(self).pos() == q,
                None => r matches Err(AssetError::Db(_)) && final(self).pos() == old(self).pos(),
            },
    {
        proof {
            use_type_invariant(&*self);
        }
        let s = self.take(8)?;
        Ok(u64_from_le_bytes(s))
    }

    /// Reads a 64-bit float as its IEEE-754 bit pattern.
    pub fn f64_bits(&mut self) -> (r: Result<u64, AssetError>)
        ensures
            final(self).data() == old(self).data(),
            match rd_u64(old(self).data(), old(self).pos()) {
                Some((v, q)) => r matches Ok(x) && x == v && final(self).pos() == q,
                None => r matches Err(AssetError::Db(_)) && final(self).pos() == old(self).pos(),
            },
    {
        self.u64()
    }

    /// Reads a length-prefixed byte string.
    pub fn bytes(&mut self) -> (r: Result<&'a [u8], AssetError>)
        ensures
            final(self).data() == old(self).data(),
            match rd_bytes(old(self).data(), old(self).pos()) {
                Some((v, q)) => r matches Ok(x) && x@ == v && final(self).pos() == q,
                None => r matches Err(AssetError::Db(_)),
            },
    {
        proof {
            use_type_invariant(&*self);
        }
        let len = self.u32()?;
        self.take(len as usize)
    }

    /// Reads a length-prefixed UTF-8 string.
    pub fn str(&mut self) -> (r: Result<String, AssetError>)
        ensures
            final(self).data() == old(self).data(),
            match rd_str(old(self).data(), old(self).pos()) {
                Some((v, q)) => r matches Ok(x) && x@ == v && final(self).pos() == q,
                None => r matches Err(AssetError::Db(_)),
            },
    {
        let b = self.bytes()?;
        match utf8_to_str(b) {
            Some(s) => {
                proof {
                    decode_utf8_encode_utf8(b@);
                    encode_utf8_decode_utf8(s@);
                }
                Ok(String::from_str(s))
            },
            None => Err(AssetError::db("corrupt row: invalid UTF-8")),
        }
    }

    /// Reads a flagged optional `u64` (flag 1 means present).
    pub fn opt_u64(&mut self) -> (r: Result<Option<u64>, AssetError>)
        ensures
            final(self).data() == old(self).data(),
            match rd_opt_u64(old(self).data(), old(self).pos()) {
                Some((v, q)) => r matches Ok(x) && x == v && final(self).pos() == q,
                None => r matches Err(AssetError::Db(_)),
            },
    {
        if self.u8()? == 1 {
            Ok(Some(self.u64()?))
        } else {
            Ok(None)
        }
    }

    /// Reads a flagged optional float bit pattern.
    pub fn opt_f64(&mut self) -> (r: Result<Option<u64>, AssetError>)
        ensures
            final(self).data() == old(self).data(),
            match rd_opt_u64(old(self).data(), old(self).pos()) {
                Some((v, q)) => r matches Ok(x) && x == v && final(self).pos() == q,
                None => r matches Err(AssetError::Db(_)),
            },
    {
        self.opt_u64()
    }

    /// Reads a flagged optional string (flag 1 means present).
    pub fn opt_str(&mut self) -> (r: Result<Option<String>, AssetError>)
        ensures
            final(self).data() == old(self).data(),
            match rd_opt_str(old(self).data(), old(self).pos()) {
                Some((v, q)) => r matches Ok(x) && (match x {
                    Some(s) => v == Some(s@),
                    None => v is None,
                }) && final(self).pos() == q,
                None => r matches Err(AssetError::Db(_)),
            },
    {
        if self.u8()? == 1 {
            Ok(Some(self.str()?))
        } else {
            Ok(None)
        }
    }

    /// True once every byte has been consumed.
    pub fn is_empty(&self) -> (r: bool)
        ensures
            r == (self.pos() >= self.data().len()),
    {
        self.pos >= self.data.len()
    }
}

// ---------------------------------------------------------------------------
// Laws: each read gives back what the matching write wrote
// ---------------------------------------------------------------------------

/// The bytes from position `p` to the end.
pub open spec fn suffix(s: Seq<u8>, p: int) -> Seq<u8> {
    s.subrange(p, s.len() as int)
}

/// `t` is the first `t.len()` bytes of `s`.
pub open spec fn is_prefix_of(t: Seq<u8>, s: Seq<u8>) -> bool {
    t.len() <= s.len() && t == s.subrange(0, t.len() as int)
}

/// A read that succeeds on a prefix stays inside it, and reads the same
/// value and end on the whole row.
pub proof fn lemma_reads_extend(t: Seq<u8>, s: Seq<u8>)
    requires
        is_prefix_of(t, s),
    ensures
        forall|p: int|
            #[trigger] rd_u8(t, p) is Some ==> rd_u8(t, p).unwrap().1 <= t.len() && rd_u8(s, p) == rd_u8(t, p),
        forall|p: int|
            #[trigger] rd_u16(t, p) is Some ==> rd_u16(t, p).unwrap().1 <= t.len() && rd_u16(s, p) == rd_u16(t, p),
        forall|p: int|
            #[trigger] rd_u32(t, p) is Some ==> rd_u32(t, p).unwrap().1 <= t.len() && rd_u32(s, p) == rd_u32(t, p),
        forall|p: int|
            #[trigger] rd_u64(t, p) is Some ==> rd_u64(t, p).unwrap().1 <= t.len() && rd_u64(s, p) == rd_u64(t, p),
        forall|p: int|
            #[trigger] rd_bytes(t, p) is Some ==> rd_bytes(t, p).unwrap().1 <= t.len() && rd_bytes(s, p)
                == rd_bytes(t, p),
        forall|p: int|
            #[trigger] rd_str(t, p) is Some ==> rd_str(t, p).unwrap().1 <= t.len() && rd_str(s, p) == rd_str(t, p),
        forall|p: int|
            #[trigger] rd_opt_u64(t, p) is Some ==> rd_opt_u64(t, p).unwrap().1 <= t.len() && rd_opt_u64(s, p)
                == rd_opt_u64(t, p),
        forall|p: int|
            #[trigger] rd_opt_str(t, p) is Some ==> rd_opt_str(t, p).unwrap().1 <= t.len() && rd_opt_str(s, p)
                == rd_opt_str(t, p),
{
    assert forall|p: int, n: int| 0 <= p && p + n <= t.len() && 0 <= n implies #[trigger] t.subrange(p, p + n)
        == s.subrange(p, p + n) by {
        assert(t.subrange(p, p + n) =~= s.subrange(p, p + n));
    }
    assert forall|p: int| #[trigger] rd_u8(t, p) is Some implies rd_u8(t, p).unwrap().1 <= t.len() && rd_u8(s, p)
        == rd_u8(t, p) by {
        assert(t[p] == s.subrange(0, t.len() as int)[p]);
    }
    assert forall|p: int| #[trigger] rd_u16(t, p) is Some implies rd_u16(t, p).unwrap().1 <= t.len() && rd_u16(s, p)
        == rd_u16(t, p) by {
        assert(t.subrange(p, p + 2) == s.subrange(p, p + 2));
    }
    assert forall|p: int| #[trigger] rd_u32(t, p) is Some implies rd_u32(t, p).unwrap().1 <= t.len() && rd_u32(s, p)
        == rd_u32(t, p) by {
        assert(t.subrange(p, p + 4) == s.subrange(p, p + 4));
    }
    assert forall|p: int| #[trigger] rd_u64(t, p) is Some implies rd_u64(t, p).unwrap().1 <= t.len() && rd_u64(s, p)
        == rd_u64(t, p) by {
        assert(t.subrange(p, p + 8) == s.subrange(p, p + 8));
    }
    assert forall|p: int| #[trigger] rd_bytes(t, p) is Some implies rd_bytes(t, p).unwrap().1 <= t.len()
        && rd_bytes(s, p) == rd_bytes(t, p) by {
        assert(t.subrange(p, p + 4) == s.subrange(p, p + 4));
        let (n, q) = rd_u32(t, p).unwrap();
        assert(t.subrange(q, q + n) == s.subrange(q, q + n));
    }
    assert forall|p: int| #[trigger] rd_str(t, p) is Some implies rd_str(t, p).unwrap().1 <= t.len() && rd_str(s, p)
        == rd_str(t, p) by {
        assert(rd_bytes(t, p) is Some);
    }
    assert forall|p: int| #[trigger] rd_opt_u64(t, p) is Some implies rd_opt_u64(t, p).unwrap().1 <= t.len()
        && rd_opt_u64(s, p) == rd_opt_u64(t, p) by {
        assert(rd_u8(t, p) is Some);
        if rd_u8(t, p).unwrap().0 == 1 {
            assert(rd_u64(t, p + 1) is Some);
        }
    }
    assert forall|p: int| #[trigger] rd_opt_str(t, p) is Some implies rd_opt_str(t, p).unwrap().1 <= t.len()
        && rd_opt_str(s, p) == rd_opt_str(t, p) by {
        assert(rd_u8(t, p) is Some);
        if rd_u8(t, p).unwrap().0 == 1 {
            assert(rd_str(t, p + 1) is Some);
        }
    }
}

/// Reading a byte where one was written gives it back and moves past it.
pub proof fn lemma_sfx_u8(s: Seq<u8>, p: int, v: u8, t: Seq<u8>)
    requires
        0 <= p <= s.len(),
        suffix(s, p) == seq![v] + t,
    ensures
        rd_u8(s, p) == Some((v, p + 1)),
        suffix(s, p + 1) == t,
{
    assert(suffix(s, p)[0] == v);
    assert(suffix(s, p + 1) =~= suffix(s, p).subrange(1, suffix(s, p).len() as int));
    assert(suffix(s, p).subrange(1, suffix(s, p).len() as int) =~= t);
}

/// Reading a `u16` where one was written gives it back and moves past it.
pub proof fn lemma_sfx_u16(s: Seq<u8>, p: int, v: u16, t: Seq<u8>)
    requires
        0 <= p <= s.len(),
        suffix(s, p) == spec_u16_to_le_bytes(v) + t,
    ensures
        rd_u16(s, p) == Some((v, p + 2)),
        suffix(s, p + 2) == t,
{
    lemma_auto_spec_u16_to_from_le_bytes();
    let e = spec_u16_to_le_bytes(v);
    assert(e.len() == 2);
    assert(suffix(s, p).len() == s.len() - p);
    assert(s.subrange(p, p + 2) =~= (e + t).subrange(0, 2));
    assert((e + t).subrange(0, 2) =~= e);
    assert(suffix(s, p + 2) =~= (e + t).subrange(2, (e + t).len() as int));
    assert((e + t).subrange(2, (e + t).len() as int) =~= t);
}

/// Reading a `u32` where one was written gives it back and moves past it.
pub proof fn lemma_sfx_u32(s: Seq<u8>, p: int, v: u32, t: Seq<u8>)
    requires
        0 <= p <= s.len(),
        suffix(s, p) == spec_u32_to_le_bytes(v) + t,
    ensures
        rd_u32(s, p) == Some((v, p + 4)),
        suffix(s, p + 4) == t,
{
    lemma_auto_spec_u32_to_from_le_bytes();
    let e = spec_u32_to_le_bytes(v);
    assert(e.len() == 4);
    assert(suffix(s, p).len() == s.len() - p);
    assert(s.subrange(p, p + 4) =~= (e + t).subrange(0, 4));
    assert((e + t).subrange(0, 4) =~= e);
    assert(suffix(s, p + 4) =~= (e + t).subrange(4, (e + t).len() as int));
    assert((e + t).subrange(4, (e + t).len() as int) =~= t);
}

/// Reading a `u64` where one was written gives it back and moves past it.
pub proof fn lemma_sfx_u64(s: Seq<u8>, p: int, v: u64, t: Seq<u8>)
    requires
        0 <= p <= s.len(),
        suffix(s, p) == spec_u64_to_le_bytes(v) + t,
    ensures
        rd_u64(s, p) == Some((v, p + 8)),
        suffix(s, p + 8) == t,
{
    lemma_auto_spec_u64_to_from_le_bytes();
    let e = spec_u64_to_le_bytes(v);
    assert(e.len() == 8);
    assert(suffix(s, p).len() == s.len() - p);
    assert(s.subrange(p, p + 8) =~= (e + t).subrange(0, 8));
    assert((e + t).subrange(0, 8) =~= e);
    assert(suffix(s, p + 8) =~= (e + t).subrange(8, (e + t).len() as int));
    assert((e + t).subrange(8, (e + t).len() as int) =~= t);
}

/// Reading a byte string where one was written gives it back, when its
/// length fits the 32-bit prefix.
pub proof fn lemma_sfx_bytes(s: Seq<u8>, p: int, v: Seq<u8>, t: Seq<u8>)
    requires
        0 <= p <= s.len(),
        v.len() <= u32::MAX,
        suffix(s, p) == enc_bytes(v) + t,
    ensures
        rd_bytes(s, p) == Some((v, p + 4 + v.len())),
        suffix(s, p + 4 + v.len()) == t,
{
    let e = spec_u32_to_le_bytes(v.len() as u32);
    assert(suffix(s, p) =~= e + (v + t));
    lemma_sfx_u32(s, p, v.len() as u32, v + t);
    let q = p + 4;
    assert(s.subrange(q, q + v.len()) =~= (v + t).subrange(0, v.len() as int));
    assert((v + t).subrange(0, v.len() as int) =~= v);
    assert(suffix(s, q + v.len()) =~= (v + t).subrange(v.len() as int, (v + t).len() as int));
    assert((v + t).subrange(v.len() as int, (v + t).len() as int) =~= t);
}

/// Reading a string where one was written gives it back, when its UTF-8
/// form fits the 32-bit prefix.
pub proof fn lemma_sfx_str(s: Seq<u8>, p: int, v: Seq<char>, t: Seq<u8>)
    requires
        0 <= p <= s.len(),
        encode_utf8(v).len() <= u32::MAX,
        suffix(s, p) == enc_str(v) + t,
    ensures
        rd_str(s, p) == Some((v, p + 4 + encode_utf8(v).len())),
        suffix(s, p + 4 + encode_utf8(v).len()) == t,
{
    lemma_sfx_bytes(s, p, encode_utf8(v), t);
    encode_utf8_valid_utf8(v);
    encode_utf8_decode_utf8(v);
}

/// Length of an encoded string.
pub proof fn lemma_enc_str_len(v: Seq<char>)
    ensures
        enc_str(v).len() == 4 + encode_utf8(v).len(),
{
    lemma_auto_spec_u32_to_from_le_bytes();
}

/// Reading an optional value where one was written gives it back.
pub proof fn lemma_sfx_opt_u64(s: Seq<u8>, p: int, v: Option<u64>, t: Seq<u8>)
    requires
        0 <= p <= s.len(),
        suffix(s, p) == enc_opt_u64(v) + t,
    ensures
        rd_opt_u64(s, p) == Some((v, p + enc_opt_u64(v).len())),
        suffix(s, p + enc_opt_u64(v).len()) == t,
{
    lemma_auto_spec_u64_to_from_le_bytes();
    match v {
        Some(x) => {
            assert(suffix(s, p) =~= seq![1u8] + (spec_u64_to_le_bytes(x) + t));
            lemma_sfx_u8(s, p, 1, spec_u64_to_le_bytes(x) + t);
            lemma_sfx_u64(s, p + 1, x, t);
        },
        None => {
            assert(suffix(s, p) =~= seq![0u8] + t);
            lemma_sfx_u8(s, p, 0, t);
        },
    }
}

/// Reading an optional string where one was written gives it back.
pub proof fn lemma_sfx_opt_str(s: Seq<u8>, p: int, v: Option<Seq<char>>, t: Seq<u8>)
    requires
        0 <= p <= s.len(),
        v matches Some(x) ==> encode_utf8(x).len() <= u32::MAX,
        suffix(s, p) == enc_opt_str(v) + t,
    ensures
        rd_opt_str(s, p) == Some((v, p + enc_opt_str(v).len())),
        suffix(s, p + enc_opt_str(v).len()) == t,
{
    match v {
        Some(x) => {
            lemma_enc_str_len(x);
            assert(suffix(s, p) =~= seq![1u8] + (enc_str(x) + t));
            lemma_sfx_u8(s, p, 1, enc_str(x) + t);
            lemma_sfx_str(s, p + 1, x, t);
        },
        None => {
            assert(suffix(s, p) =~= seq![0u8] + t);
            lemma_sfx_u8(s, p, 0, t);
        },
    }
}

} // verus!
