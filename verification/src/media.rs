//! Media container sniffing by magic bytes, uniform clip sampling and the decoding
//! budget for animations.

use vstd::prelude::*;

use crate::text::{chars_eq, to_chars};
use crate::types::JepaError;

verus! {

/// `p` is a prefix of `b`.
pub open spec fn starts_with_bytes(b: Seq<u8>, p: Seq<u8>) -> bool {
    p.len() <= b.len() && b.take(p.len() as int) == p
}

/// `b[at..at + p.len()] == p`.
pub open spec fn bytes_at(b: Seq<u8>, at: int, p: Seq<u8>) -> bool {
    0 <= at && at + p.len() <= b.len() && b.subrange(at, at + p.len()) == p
}

pub open spec fn png_magic() -> Seq<u8> {
    seq![0x89u8, 0x50, 0x4E, 0x47, 0x0D, 0x0A, 0x1A, 0x0A]
}

pub open spec fn riff_magic() -> Seq<u8> {
    seq![0x52u8, 0x49, 0x46, 0x46]
}

/// Container named by the magic bytes of `b`, or none (see [`sniff_media_format`]).
pub open spec fn spec_media_format(b: Seq<u8>) -> Option<Seq<char>> {
    if b.len() < 12 {
        None
    } else if starts_with_bytes(b, png_magic()) {
        Some("png"@)
    } else if starts_with_bytes(b, seq![0xFFu8, 0xD8, 0xFF]) {
        Some("jpeg"@)
    } else if starts_with_bytes(b, riff_magic()) && bytes_at(b, 8, seq![0x57u8, 0x45, 0x42, 0x50]) {
        Some("webp"@)
    } else if starts_with_bytes(b, seq![0x47u8, 0x49, 0x46, 0x38, 0x37, 0x61]) || starts_with_bytes(
        b,
        seq![0x47u8, 0x49, 0x46, 0x38, 0x39, 0x61],
    ) {
        Some("gif"@)
    } else if bytes_at(b, 4, seq![0x66u8, 0x74, 0x79, 0x70]) {
        Some("mp4"@)
    } else if starts_with_bytes(b, seq![0x1Au8, 0x45, 0xDF, 0xA3]) {
        Some("webm"@)
    } else {
        None
    }
}

/// Why no container is recognised in `b`.
pub open spec fn sniff_failure(b: Seq<u8>) -> Seq<char> {
    if b.len() < 12 {
        "Payload buffer too short to determine format"@
    } else {
        "Unsupported media format. Expected PNG, JPEG, WebP, MP4, or WebM"@
    }
}

/// Whether `b[at..]` starts with `p`.
pub(crate) fn match_bytes(b: &[u8], at: usize, p: &[u8]) -> (r: bool)
    ensures
        r == bytes_at(b@, at as int, p@),
{
    if at > b.len() || b.len() - at < p.len() {
        return false;
    }
    let mut i: usize = 0;
    while i < p.len()
        invariant
            at + p@.len() <= b@.len(),
            at + p.len() <= b.len(),
            i <= p@.len(),
            forall|j: int| 0 <= j < i ==> b@[at + j] == p@[j],
        decreases p@.len() - i,
    {
        if b[at + i] != p[i] {
            assert(b@.subrange(at as int, at + p@.len())[i as int] != p@[i as int]);
            return false;
        }
        i = i + 1;
    }
    assert(b@.subrange(at as int, at + p@.len()) =~= p@);
    true
}

proof fn lemma_at_zero_is_prefix(b: Seq<u8>, p: Seq<u8>)
    ensures
        bytes_at(b, 0, p) == starts_with_bytes(b, p),
{
    if p.len() <= b.len() {
        assert(b.subrange(0, p.len() as int) =~= b.take(p.len() as int));
    }
}

/// Sniff raw magic bytes to detect the media format without trusting a user-provided MIME type.
pub fn sniff_media_format(buffer: &[u8]) -> (r: Result<&'static str, JepaError>)
    ensures
        r matches Ok(f) ==> spec_media_format(buffer@) == Some(f@),
        r is Err ==> spec_media_format(buffer@) is None,
        r matches Err(e) ==> e is InvalidPayload,
        r matches Err(JepaError::InvalidPayload(m)) ==> m@ == sniff_failure(buffer@),
{
    if buffer.len() < 12 {
        return Err(
            JepaError::InvalidPayload(String::from_str("Payload buffer too short to determine format")),
        );
    }
    let png: [u8; 8] = [0x89, 0x50, 0x4E, 0x47, 0x0D, 0x0A, 0x1A, 0x0A];
    let jpeg: [u8; 3] = [0xFF, 0xD8, 0xFF];
    let riff: [u8; 4] = [0x52, 0x49, 0x46, 0x46];
    let webp: [u8; 4] = [0x57, 0x45, 0x42, 0x50];
    let gif87: [u8; 6] = [0x47, 0x49, 0x46, 0x38, 0x37, 0x61];
    let gif89: [u8; 6] = [0x47, 0x49, 0x46, 0x38, 0x39, 0x61];
    let ftyp: [u8; 4] = [0x66, 0x74, 0x79, 0x70];
    let ebml: [u8; 4] = [0x1A, 0x45, 0xDF, 0xA3];
    proof {
        assert(png@ =~= png_magic());
        assert(jpeg@ =~= seq![0xFFu8, 0xD8, 0xFF]);
        assert(riff@ =~= riff_magic());
        assert(webp@ =~= seq![0x57u8, 0x45, 0x42, 0x50]);
        assert(gif87@ =~= seq![0x47u8, 0x49, 0x46, 0x38, 0x37, 0x61]);
        assert(gif89@ =~= seq![0x47u8, 0x49, 0x46, 0x38, 0x39, 0x61]);
        assert(ftyp@ =~= seq![0x66u8, 0x74, 0x79, 0x70]);
        assert(ebml@ =~= seq![0x1Au8, 0x45, 0xDF, 0xA3]);
        lemma_at_zero_is_prefix(buffer@, png@);
        lemma_at_zero_is_prefix(buffer@, jpeg@);
        lemma_at_zero_is_prefix(buffer@, riff@);
        lemma_at_zero_is_prefix(buffer@, gif87@);
        lemma_at_zero_is_prefix(buffer@, gif89@);
        lemma_at_zero_is_prefix(buffer@, ebml@);
    }
    if match_bytes(buffer, 0, &png) {
        return Ok("png");
    }
    if match_bytes(buffer, 0, &jpeg) {
        return Ok("jpeg");
    }
    if match_bytes(buffer, 0, &riff) && match_bytes(buffer, 8, &webp) {
        return Ok("webp");
    }
    if match_bytes(buffer, 0, &gif87) || match_bytes(buffer, 0, &gif89) {
        return Ok("gif");
    }
    if match_bytes(buffer, 4, &ftyp) {
        return Ok("mp4");
    }
    if match_bytes(buffer, 0, &ebml) {
        return Ok("webm");
    }
    Err(
        JepaError::InvalidPayload(
            String::from_str("Unsupported media format. Expected PNG, JPEG, WebP, MP4, or WebM"),
        ),
    )
}

/// Audio container named by the magic bytes of `b` (see [`sniff_audio_format`]).
pub open spec fn spec_audio_format(b: Seq<u8>) -> Option<Seq<char>> {
    if b.len() >= 12 && starts_with_bytes(b, riff_magic()) && bytes_at(b, 8, seq![0x57u8, 0x41, 0x56, 0x45]) {
        Some("wav"@)
    } else if starts_with_bytes(b, seq![0x49u8, 0x44, 0x33]) || (b.len() >= 2 && b[0] == 0xFF
        && b[1] as int / 32 == 7) {
        Some("mp3"@)
    } else if starts_with_bytes(b, seq![0x66u8, 0x4C, 0x61, 0x43]) {
        Some("flac"@)
    } else if starts_with_bytes(b, seq![0x4Fu8, 0x67, 0x67, 0x53]) {
        Some("ogg"@)
    } else {
        None
    }
}

/// Sniff audio containers (complements [`sniff_media_format`]).
pub fn sniff_audio_format(buffer: &[u8]) -> (r: Option<&'static str>)
    ensures
        r matches Some(f) ==> spec_audio_format(buffer@) == Some(f@),
        r is None ==> spec_audio_format(buffer@) is None,
{
    let riff: [u8; 4] = [0x52, 0x49, 0x46, 0x46];
    let wave: [u8; 4] = [0x57, 0x41, 0x56, 0x45];
    let id3: [u8; 3] = [0x49, 0x44, 0x33];
    let flac: [u8; 4] = [0x66, 0x4C, 0x61, 0x43];
    let ogg: [u8; 4] = [0x4F, 0x67, 0x67, 0x53];
    proof {
        assert(riff@ =~= riff_magic());
        assert(wave@ =~= seq![0x57u8, 0x41, 0x56, 0x45]);
        assert(id3@ =~= seq![0x49u8, 0x44, 0x33]);
        assert(flac@ =~= seq![0x66u8, 0x4C, 0x61, 0x43]);
        assert(ogg@ =~= seq![0x4Fu8, 0x67, 0x67, 0x53]);
        lemma_at_zero_is_prefix(buffer@, riff@);
        lemma_at_zero_is_prefix(buffer@, id3@);
        lemma_at_zero_is_prefix(buffer@, flac@);
        lemma_at_zero_is_prefix(buffer@, ogg@);
    }
    if buffer.len() >= 12 && match_bytes(buffer, 0, &riff) && match_bytes(buffer, 8, &wave) {
        Some("wav")
    } else if match_bytes(buffer, 0, &id3) || (buffer.len() >= 2 && buffer[0] == 0xFF && (buffer[1]
        & 0xE0) == 0xE0) {
        proof {
            if buffer@.len() >= 2 {
                let b1: u8 = buffer@[1];
                assert(((b1 & 0xE0) == 0xE0) == (b1 / 32 == 7)) by (bit_vector);
            }
        }
        Some("mp3")
    } else if match_bytes(buffer, 0, &flac) {
        proof {
            if buffer@.len() >= 2 {
                let b1: u8 = buffer@[1];
                assert(((b1 & 0xE0) == 0xE0) == (b1 / 32 == 7)) by (bit_vector);
            }
        }
        Some("flac")
    } else if match_bytes(buffer, 0, &ogg) {
        proof {
            if buffer@.len() >= 2 {
                let b1: u8 = buffer@[1];
                assert(((b1 & 0xE0) == 0xE0) == (b1 / 32 == 7)) by (bit_vector);
            }
        }
        Some("ogg")
    } else {
        proof {
            if buffer@.len() >= 2 {
                let b1: u8 = buffer@[1];
                assert(((b1 & 0xE0) == 0xE0) == (b1 / 32 == 7)) by (bit_vector);
            }
        }
        None
    }
}

/// Whether the sniffed format is an audio container the runtime can decode.
pub fn is_audio_format(format: &str) -> (r: bool)
    ensures
        r == (format@ == "wav"@ || format@ == "mp3"@ || format@ == "flac"@ || format@ == "ogg"@),
{
    let f: Vec<char> = to_chars(format);
    chars_eq(&f, "wav") || chars_eq(&f, "mp3") || chars_eq(&f, "flac") || chars_eq(&f, "ogg")
}

/// Whether the sniffed format is a container the runtime can turn into frames.
pub fn is_video_format(format: &str) -> (r: bool)
    ensures
        r == (format@ == "gif"@ || format@ == "webp"@ || format@ == "mp4"@ || format@ == "webm"@),
{
    let f: Vec<char> = to_chars(format);
    chars_eq(&f, "gif") || chars_eq(&f, "webp") || chars_eq(&f, "mp4") || chars_eq(&f, "webm")
}

/// Index of the `i`-th of `count` frames spread uniformly over a clip of `len` frames.
pub open spec fn uniform_index(i: int, len: int, count: int) -> int {
    (i * len) / count
}

/// Pick `count` frames spread uniformly over the clip (repeating when the clip is shorter).
pub fn sample_uniform<T: Clone>(frames: &[T], count: usize) -> (out: Vec<T>)
    requires
        count * frames@.len() <= usize::MAX,
    ensures
        out@.len() == if frames@.len() == 0 || count == 0 { 0 } else { count as int },
        forall|i: int|
            0 <= i < out@.len() ==> 0 <= uniform_index(i, frames@.len() as int, count as int)
                < frames@.len() && cloned(
                frames@[uniform_index(i, frames@.len() as int, count as int)],
                #[trigger] out@[i],
            ),
{
    let mut out: Vec<T> = Vec::new();
    let n: usize = frames.len();
    if n == 0 || count == 0 {
        return out;
    }
    let mut i: usize = 0;
    while i < count
        invariant
            n == frames@.len(),
            0 < n,
            0 < count,
            count * n <= usize::MAX,
            i <= count,
            out@.len() == i,
            forall|j: int|
                0 <= j < i ==> 0 <= #[trigger] uniform_index(j, n as int, count as int) < n,
            forall|j: int|
                0 <= j < i ==> cloned(
                    frames@[uniform_index(j, n as int, count as int)],
                    #[trigger] out@[j],
                ),
        decreases count - i,
    {
        proof {
            assert(i * n <= count * n) by (nonlinear_arith)
                requires
                    i <= count,
            ;
            assert(0 <= (i as int * n as int) / (count as int) < n) by (nonlinear_arith)
                requires
                    i < count,
                    0 < n,
                    0 < count,
            ;
        }
        let idx: usize = (i * n) / count;
        let item: T = frames[idx].clone();
        assert(cloned(frames@[idx as int], item));
        let ghost before = out@;
        out.push(item);
        assert forall|j: int| 0 <= j < i + 1 implies 0 <= uniform_index(j, n as int, count as int)
            < n && cloned(frames@[uniform_index(j, n as int, count as int)], #[trigger] out@[j]) by {
            if j < i {
                assert(out@[j] == before[j]);
            } else {
                assert(out@[j] == item);
                assert(uniform_index(j, n as int, count as int) == idx as int);
            }
        }
        i = i + 1;
    }
    out
}

/// Upper bound on frames kept in memory from one file (before sub-sampling).
pub const MAX_DECODED_FRAMES: usize = 512;

/// Upper bound on decoded pixels kept in memory from one animation (about 768 MB of
/// RGB): frames past this budget are dropped, sampling covers what was kept.
pub const MAX_DECODED_PIXELS: u64 = 268_435_456;

/// How many frames of an animation are decoded: at most `max_frames` (and never more
/// than [`MAX_DECODED_FRAMES`]), and no frame after the pixel budget is spent.
pub struct AnimationBudget {
    limit: usize,
    kept: usize,
    pixels: u64,
}

impl AnimationBudget {
    pub closed spec fn limit(&self) -> nat {
        self.limit as nat
    }

    pub closed spec fn kept(&self) -> nat {
        self.kept as nat
    }

    pub closed spec fn pixels(&self) -> nat {
        self.pixels as nat
    }

    /// No further frame is decoded.
    pub open spec fn exhausted(&self) -> bool {
        self.kept() >= self.limit() || self.pixels() >= MAX_DECODED_PIXELS
    }

    pub fn new(max_frames: usize) -> (b: Self)
        ensures
            b.limit() == if max_frames < MAX_DECODED_FRAMES { max_frames } else { MAX_DECODED_FRAMES },
            b.kept() == 0,
            b.pixels() == 0,
    {
        let limit: usize = if max_frames < MAX_DECODED_FRAMES { max_frames } else { MAX_DECODED_FRAMES };
        AnimationBudget { limit, kept: 0, pixels: 0 }
    }

    /// Record one decoded frame of `width` x `height`; returns whether decoding goes on.
    pub fn record_frame(&mut self, width: u32, height: u32) -> (go_on: bool)
        requires
            old(self).pixels() < MAX_DECODED_PIXELS,
            old(self).kept() < usize::MAX,
        ensures
            final(self).limit() == old(self).limit(),
            final(self).kept() == old(self).kept() + 1,
            final(self).pixels() == old(self).pixels() + width * height,
            go_on == !final(self).exhausted(),
    {
        proof {
            assert((width as int) * (height as int) <= 0xFFFF_FFFFint * 0xFFFF_FFFFint) by (nonlinear_arith)
                requires
                    width <= 0xFFFF_FFFFint,
                    height <= 0xFFFF_FFFFint,
            ;
        }
        let area: u64 = (width as u64) * (height as u64);
        self.pixels = self.pixels + area;
        self.kept = self.kept + 1;
        !(self.kept >= self.limit || self.pixels >= MAX_DECODED_PIXELS)
    }

    /// Frames recorded so far.
    pub fn kept_frames(&self) -> (n: usize)
        ensures
            n == self.kept(),
    {
        self.kept
    }

    /// An animation that yielded no frame is refused.
    pub fn finish(&self) -> (r: Result<(), JepaError>)
        ensures
            r is Ok <==> self.kept() > 0,
            r matches Err(e) ==> (e matches JepaError::InvalidPayload(m) && m@ == "Animation contains no frames"@),
    {
        if self.kept == 0 {
            Err(JepaError::InvalidPayload(String::from_str("Animation contains no frames")))
        } else {
            Ok(())
        }
    }
}

} // verus!
