//! What a file's extension says about it: which extensions are still
//! images, which files a proxy run picks up (and whether as audio), and
//! the name a proxy is written under. Extensions compare without regard
//! to ASCII case.

use vstd::prelude::*;

use crate::text::{chars_of, word_is};

verus! {

broadcast use vstd::seq::group_seq_axioms;

/// `c` with ASCII upper-case letters made lower-case.
pub open spec fn lower_char(c: char) -> char {
    if 'A' <= c && c <= 'Z' {
        ((c as int) + 32) as char
    } else {
        c
    }
}

/// `s` with ASCII upper-case letters made lower-case.
pub open spec fn lower(s: Seq<char>) -> Seq<char> {
    Seq::new(s.len(), |i: int| lower_char(s[i]))
}

/// Whether `ext` is, ignoring ASCII case, one of the still-image
/// extensions.
pub open spec fn spec_is_image_ext(ext: Seq<char>) -> bool {
    let e = lower(ext);
    e == "jpg"@ || e == "jpeg"@ || e == "png"@ || e == "bmp"@ || e == "gif"@ || e == "tiff"@
}

/// What a proxy run makes of a file.
#[derive(Debug, Clone, Copy, PartialEq, Eq, Structural)]
pub enum ProxySource {
    /// An audio file (`wav`, `flac`): rendered as an audio proxy.
    Audio,
    /// A video file (`tkvp`, `mp4`): rendered as a video proxy.
    Video,
}

/// The kind of proxy source an extension names, ignoring ASCII case.
pub open spec fn spec_proxy_source(ext: Seq<char>) -> Option<ProxySource> {
    let e = lower(ext);
    if e == "wav"@ || e == "flac"@ {
        Some(ProxySource::Audio)
    } else if e == "tkvp"@ || e == "mp4"@ {
        Some(ProxySource::Video)
    } else {
        None
    }
}

/// `s` with ASCII upper-case letters made lower-case.
pub fn ascii_lowercase(s: &str) -> (r: Vec<char>)
    ensures
        r@ == lower(s@),
{
    let cs = chars_of(s);
    let mut out: Vec<char> = Vec::new();
    let mut i: usize = 0;
    while i < cs.len()
        invariant
            cs@ == s@,
            i <= cs.len(),
            out@ == lower(s@).take(i as int),
        decreases cs.len() - i,
    {
        let c = cs[i];
        let l = if 'A' <= c && c <= 'Z' {
            ((c as u32) + 32) as u8 as char
        } else {
            c
        };
        out.push(l);
        proof {
            assert(out@ =~= lower(s@).take((i + 1) as int));
        }
        i += 1;
    }
    proof {
        assert(lower(s@).take(cs.len() as int) =~= lower(s@));
    }
    out
}

/// The still-image extensions, whatever their ASCII case, are exactly
/// `jpg`, `jpeg`, `png`, `bmp`, `gif` and `tiff`.
pub proof fn lemma_image_extension_list(ext: Seq<char>)
    ensures
        spec_is_image_ext(ext) <==> {
            let e = lower(ext);
            ||| e == seq!['j', 'p', 'g']
            ||| e == seq!['j', 'p', 'e', 'g']
            ||| e == seq!['p', 'n', 'g']
            ||| e == seq!['b', 'm', 'p']
            ||| e == seq!['g', 'i', 'f']
            ||| e == seq!['t', 'i', 'f', 'f']
        },
{
    reveal_strlit("jpg");
    reveal_strlit("jpeg");
    reveal_strlit("png");
    reveal_strlit("bmp");
    reveal_strlit("gif");
    reveal_strlit("tiff");
    assert("jpg"@ =~= seq!['j', 'p', 'g']);
    assert("jpeg"@ =~= seq!['j', 'p', 'e', 'g']);
    assert("png"@ =~= seq!['p', 'n', 'g']);
    assert("bmp"@ =~= seq!['b', 'm', 'p']);
    assert("gif"@ =~= seq!['g', 'i', 'f']);
    assert("tiff"@ =~= seq!['t', 'i', 'f', 'f']);
}

/// Whether `ext` is a still-image extension.
pub fn is_image_extension(ext: &str) -> (r: bool)
    ensures
        r == spec_is_image_ext(ext@),
        r <==> {
            let e = lower(ext@);
            ||| e == seq!['j', 'p', 'g']
            ||| e == seq!['j', 'p', 'e', 'g']
            ||| e == seq!['p', 'n', 'g']
            ||| e == seq!['b', 'm', 'p']
            ||| e == seq!['g', 'i', 'f']
            ||| e == seq!['t', 'i', 'f', 'f']
        },
{
    proof {
        lemma_image_extension_list(ext@);
    }
    let e = ascii_lowercase(ext);
    word_is(&e, "jpg") || word_is(&e, "jpeg") || word_is(&e, "png") || word_is(&e, "bmp")
        || word_is(&e, "gif") || word_is(&e, "tiff")
}

/// The kind of proxy source an extension names, if any.
pub fn proxy_source_kind(ext: &str) -> (r: Option<ProxySource>)
    ensures
        r == spec_proxy_source(ext@),
{
    let e = ascii_lowercase(ext);
    if word_is(&e, "wav") || word_is(&e, "flac") {
        Some(ProxySource::Audio)
    } else if word_is(&e, "tkvp") || word_is(&e, "mp4") {
        Some(ProxySource::Video)
    } else {
        None
    }
}

/// The file name a proxy of `stem` is written under: `{stem}_proxy.wav`
/// for audio, `{stem}_proxy.tkvp` for video.
pub fn proxy_file_name(stem: &str, kind: ProxySource) -> (r: String)
    ensures
        r@ == stem@ + "_proxy."@ + match kind {
            ProxySource::Audio => "wav"@,
            ProxySource::Video => "tkvp"@,
        },
{
    let mut s = String::from_str(stem);
    s.append("_proxy.");
    match kind {
        ProxySource::Audio => s.append("wav"),
        ProxySource::Video => s.append("tkvp"),
    }
    s
}

} // verus!
