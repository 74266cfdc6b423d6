//! Turning an uploaded clip into frames: GIF and animated WebP are decoded here
//! frame by frame under the animation budget; MP4 and WebM are left to an external
//! decoder.

use vstd::prelude::*;

use image::codecs::gif::GifDecoder;
use image::codecs::webp::WebPDecoder;
use image::{AnimationDecoder, Frame, Frames, ImageError};
use std::io::Cursor;

use crate::canvas::{byte_pixel, Canvas};
use crate::media::{sniff_failure, sniff_media_format, spec_media_format, AnimationBudget, MAX_DECODED_FRAMES, MAX_DECODED_PIXELS};
use crate::text::{chars_eq, to_chars};
use crate::types::JepaError;

verus! {

#[verifier::external_type_specification]
#[verifier::external_body]
#[verifier::reject_recursive_types(T)]
pub struct ExCursor<T>(Cursor<T>);

#[verifier::external_type_specification]
#[verifier::external_body]
#[verifier::reject_recursive_types(R)]
pub struct ExWebPDecoder<R>(WebPDecoder<R>);

#[verifier::external_type_specification]
#[verifier::external_body]
pub struct ExFrames<'a>(Frames<'a>);

#[verifier::external_type_specification]
#[verifier::external_body]
pub struct ExFrame(Frame);

#[verifier::external_type_specification]
#[verifier::external_body]
pub struct ExImageError(ImageError);

/// One decoded animation frame as the decoder hands it out: RGBA, row by row.
pub struct RgbaFrame {
    pub width: u32,
    pub height: u32,
    pub rgba: Vec<u8>,
}

/// The frames an animation decoder still yields, in order, each as its width, height
/// and RGBA bytes row by row, or the decoder's error message; the sequence ends at
/// the iterator's end or at its first error.
pub uninterp spec fn frames_left(frames: Frames<'_>) -> Seq<Result<(u32, u32, Seq<u8>), Seq<char>>>;

/// What decoding `bytes` as a GIF gives: the error message of the header, or the
/// frames it yields (composited, RGBA).
pub uninterp spec fn gif_decoded(bytes: Seq<u8>) -> Result<Seq<Result<(u32, u32, Seq<u8>), Seq<char>>>, Seq<char>>;

/// The error message of opening `bytes` as a WebP file, none when it opens.
pub uninterp spec fn webp_open_error(bytes: Seq<u8>) -> Option<Seq<char>>;

/// The bytes a WebP decoder reads.
pub uninterp spec fn webp_input(decoder: WebPDecoder<Cursor<&[u8]>>) -> Seq<u8>;

/// Whether the WebP bitstream `bytes` announces an animation.
pub uninterp spec fn webp_animated(bytes: Seq<u8>) -> bool;

/// The frames of the WebP animation `bytes` (RGBA).
pub uninterp spec fn webp_animation(bytes: Seq<u8>) -> Seq<Result<(u32, u32, Seq<u8>), Seq<char>>>;

/// `GifDecoder::new` over the bytes (reads the GIF header), turned into its frame
/// iterator (`into_frames`); the error is the decoder's message. Both are what
/// decoding these bytes gives ([`gif_decoded`]).
#[verifier::external_body]
fn gif_frames<'a>(bytes: &'a [u8]) -> (r: Result<Frames<'a>, String>)
    ensures
        r matches Ok(f) ==> (gif_decoded(bytes@) matches Ok(items) && items == frames_left(f)),
        r matches Err(m) ==> (gif_decoded(bytes@) matches Err(x) && x == m@),
{
    match GifDecoder::new(Cursor::new(bytes)) {
        Ok(decoder) => Ok(decoder.into_frames()),
        Err(e) => Err(e.to_string()),
    }
}

/// `WebPDecoder::new` over the bytes (reads the RIFF header); the error is the
/// decoder's message ([`webp_open_error`]), and an opened decoder reads these bytes.
#[verifier::external_body]
fn open_webp<'a>(bytes: &'a [u8]) -> (r: Result<WebPDecoder<Cursor<&'a [u8]>>, String>)
    ensures
        r matches Ok(d) ==> webp_open_error(bytes@) is None && webp_input(d) == bytes@,
        r matches Err(m) ==> webp_open_error(bytes@) == Some(m@),
{
    WebPDecoder::new(Cursor::new(bytes)).map_err(|e| e.to_string())
}

/// `WebPDecoder::has_animation`: whether the bitstream announces an animation.
#[verifier::external_body]
fn webp_is_animated(decoder: &WebPDecoder<Cursor<&[u8]>>) -> (r: bool)
    ensures
        r == webp_animated(webp_input(*decoder)),
{
    decoder.has_animation()
}

/// `AnimationDecoder::into_frames` of the WebP decoder: the frames of the animation
/// the decoder reads. Only for a bitstream that announces an animation: reading a
/// frame of a still WebP panics in the decoder.
#[verifier::external_body]
fn webp_frames<'a>(decoder: WebPDecoder<Cursor<&'a [u8]>>) -> (f: Frames<'a>)
    requires
        webp_animated(webp_input(decoder)),
    ensures
        frames_left(f) == webp_animation(webp_input(decoder)),
{
    decoder.into_frames()
}

/// `Frames::next`: the next frame, its buffer taken apart into width, height and
/// RGBA bytes (an `ImageBuffer` always holds at least four bytes per pixel), or the
/// decoder's error message, or none at the end: the head of [`frames_left`], which a
/// frame leaves.
#[verifier::external_body]
fn next_frame(frames: &mut Frames<'_>) -> (r: Option<Result<RgbaFrame, String>>)
    ensures
        r is None <==> frames_left(*old(frames)).len() == 0,
        r matches Some(Ok(f)) ==> f.rgba@.len() >= f.width * f.height * 4,
        r matches Some(Ok(f)) ==> (frames_left(*old(frames))[0] matches Ok(t) && t == (f.width, f.height, f.rgba@)),
        r matches Some(Ok(f)) ==> frames_left(*final(frames)) == frames_left(*old(frames)).drop_first(),
        r matches Some(Err(m)) ==> (frames_left(*old(frames))[0] matches Err(x) && x == m@),
{
    match frames.next() {
        None => None,
        Some(Err(e)) => Some(Err(e.to_string())),
        Some(Ok(frame)) => {
            let buffer = frame.into_buffer();
            let (width, height) = buffer.dimensions();
            Some(Ok(RgbaFrame { width, height, rgba: buffer.into_raw() }))
        },
    }
}

/// The container formats whose frames are decoded here.
pub open spec fn is_animation_format(f: Seq<char>) -> bool {
    f == "gif"@ || f == "webp"@
}

/// The container formats left to the external decoder.
pub open spec fn is_container_format(f: Seq<char>) -> bool {
    f == "mp4"@ || f == "webm"@
}

/// How many frames an animation may yield when `max_frames` are asked for: the
/// first frame is always kept, then no more than `max_frames` and
/// [`MAX_DECODED_FRAMES`].
pub open spec fn frame_cap(max_frames: int) -> int {
    if max_frames < 1 {
        1
    } else if max_frames < MAX_DECODED_FRAMES {
        max_frames
    } else {
        MAX_DECODED_FRAMES as int
    }
}

/// Between one frame and the cap, each a well-formed raster.
pub open spec fn frames_within(v: Seq<Canvas>, max_frames: int) -> bool {
    &&& 1 <= v.len() <= frame_cap(max_frames)
    &&& forall|i: int| 0 <= i < v.len() ==> #[trigger] v[i].well_formed()
}

/// Frames kept from an animation when `max_frames` are asked for: no more than
/// `max_frames` and [`MAX_DECODED_FRAMES`] (the first frame is always kept).
pub open spec fn frame_limit(max_frames: int) -> int {
    if max_frames < MAX_DECODED_FRAMES {
        max_frames
    } else {
        MAX_DECODED_FRAMES as int
    }
}

/// `pre` followed by what `rest` yields, or its error.
pub open spec fn then_frames(
    pre: Seq<(u32, u32, Seq<u8>)>,
    rest: Result<Seq<(u32, u32, Seq<u8>)>, Seq<char>>,
) -> Result<Seq<(u32, u32, Seq<u8>)>, Seq<char>> {
    match rest {
        Ok(r) => Ok(pre + r),
        Err(m) => Err(m),
    }
}

/// The frames kept from decoder items `items` from index `i` on, `pixels` pixels
/// having been kept before: each frame is kept; decoding stops after the frame that
/// reaches `limit` frames or [`MAX_DECODED_PIXELS`] pixels, at the end, or at the
/// first error.
pub open spec fn frames_from(
    items: Seq<Result<(u32, u32, Seq<u8>), Seq<char>>>,
    limit: int,
    i: int,
    pixels: int,
) -> Result<Seq<(u32, u32, Seq<u8>)>, Seq<char>>
    decreases items.len() - i,
{
    if i < 0 || i >= items.len() {
        Ok(Seq::empty())
    } else {
        match items[i] {
            Err(m) => Err(m),
            Ok(t) => {
                let p = pixels + t.0 * t.1;
                if i + 1 >= limit || p >= MAX_DECODED_PIXELS {
                    Ok(seq![t])
                } else {
                    then_frames(seq![t], frames_from(items, limit, i + 1, p))
                }
            },
        }
    }
}

/// The frames an animation whose decoder yields `items` keeps when `max_frames` are
/// asked for, or the first decoding error.
pub open spec fn spec_animation(items: Seq<Result<(u32, u32, Seq<u8>), Seq<char>>>, max_frames: int) -> Result<
    Seq<(u32, u32, Seq<u8>)>,
    Seq<char>,
> {
    frames_from(items, frame_limit(max_frames), 0, 0)
}

/// `c` is the raster of decoded frame `t` (RGBA, alpha dropped).
pub open spec fn canvas_of_frame(c: Canvas, t: (u32, u32, Seq<u8>)) -> bool {
    &&& c.well_formed()
    &&& c.width() == t.0
    &&& c.height() == t.1
    &&& forall|i: int| 0 <= i < t.0 * t.1 ==> #[trigger] c.raster()[i] == byte_pixel(t.2, 4, i)
}

/// `v` are the frames kept from an animation whose decoder yields `items`.
pub open spec fn animation_ok(items: Seq<Result<(u32, u32, Seq<u8>), Seq<char>>>, max_frames: int, v: Seq<Canvas>) -> bool {
    spec_animation(items, max_frames) matches Ok(fs) && fs.len() > 0 && v.len() == fs.len() && forall|i: int|
        0 <= i < fs.len() ==> canvas_of_frame(#[trigger] v[i], fs[i])
}

/// `e` is why an animation whose decoder yields `items` is refused: the decoder's
/// first error, or no frame at all.
pub open spec fn animation_err(items: Seq<Result<(u32, u32, Seq<u8>), Seq<char>>>, max_frames: int, e: JepaError) -> bool {
    match spec_animation(items, max_frames) {
        Err(m) => e matches JepaError::ImageProcessing(x) && x@ == m,
        Ok(fs) => fs.len() == 0 && (e matches JepaError::InvalidPayload(x) && x@ == "Animation contains no frames"@),
    }
}

/// Decode the frames of an animation, oldest first, until it ends or the budget
/// of [`AnimationBudget`] is spent; a decoding error ends it with that error.
#[verifier::rlimit(60)]
pub fn decode_animation(frames: Frames<'_>, max_frames: usize) -> (r: Result<Vec<Canvas>, JepaError>)
    ensures
        r matches Ok(v) ==> frames_within(v@, max_frames as int),
        r matches Ok(v) ==> animation_ok(frames_left(frames), max_frames as int, v@),
        r matches Err(e) ==> animation_err(frames_left(frames), max_frames as int, e),
{
    let ghost items = frames_left(frames);
    let ghost limit: int = frame_limit(max_frames as int);
    let mut it = frames;
    let mut budget = AnimationBudget::new(max_frames);
    let mut out: Vec<Canvas> = Vec::new();
    let ghost mut taken: Seq<(u32, u32, Seq<u8>)> = Seq::empty();
    proof {
        assert(items.skip(0) =~= items);
        assert(then_frames(taken, frames_from(items, limit, 0, 0)) =~= frames_from(items, limit, 0, 0)) by {
            match frames_from(items, limit, 0, 0) {
                Ok(r) => {
                    assert(taken + r =~= r);
                },
                Err(_) => {},
            }
        }
    }
    loop
        invariant_except_break
            budget.pixels() < MAX_DECODED_PIXELS,
            budget.kept() < budget.limit() || budget.kept() == 0,
            frames_left(it) == items.skip(out@.len() as int),
            out@.len() <= items.len(),
            spec_animation(items, max_frames as int) == then_frames(
                taken,
                frames_from(items, limit, out@.len() as int, budget.pixels() as int),
            ),
        invariant
            items == frames_left(frames),
            limit == frame_limit(max_frames as int),
            budget.limit() == limit,
            budget.kept() == out@.len(),
            taken.len() == out@.len(),
            budget.kept() <= frame_cap(max_frames as int),
            forall|j: int| 0 <= j < out@.len() ==> canvas_of_frame(#[trigger] out@[j], taken[j]),
        ensures
            spec_animation(items, max_frames as int) == Ok::<Seq<(u32, u32, Seq<u8>)>, Seq<char>>(taken),
        decreases budget.limit() + 1 - budget.kept(),
    {
        let ghost k: int = out@.len() as int;
        let ghost p: int = budget.pixels() as int;
        match next_frame(&mut it) {
            None => {
                proof {
                    assert(items.skip(k).len() == 0);
                    assert(frames_from(items, limit, k, p) == Ok::<Seq<(u32, u32, Seq<u8>)>, Seq<char>>(Seq::empty()));
                    assert(taken + Seq::<(u32, u32, Seq<u8>)>::empty() =~= taken);
                }
                break ;
            },
            Some(Err(message)) => {
                proof {
                    assert(items.skip(k).len() > 0);
                    assert(items[k] == items.skip(k)[0]);
                    assert(items[k] matches Err(x) && x == message@);
                    assert(frames_from(items, limit, k, p) matches Err(x) && x == message@);
                    assert(spec_animation(items, max_frames as int) matches Err(x) && x == message@);
                }
                return Err(JepaError::ImageProcessing(message));
            },
            Some(Ok(f)) => {
                proof {
                    assert(items[k] == items.skip(k)[0]);
                    assert(items.skip(k).drop_first() =~= items.skip(k + 1));
                }
                let canvas = Canvas::from_bytes(f.width, f.height, &f.rgba, 4);
                out.push(canvas);
                let go_on = budget.record_frame(f.width, f.height);
                let ghost t = (f.width, f.height, f.rgba@);
                proof {
                    let old_taken = taken;
                    taken = taken.push(t);
                    assert forall|j: int| 0 <= j < out@.len() implies canvas_of_frame(#[trigger] out@[j], taken[j]) by {
                        if j < k {
                            assert(taken[j] == old_taken[j]);
                        }
                    }
                    if go_on {
                        match frames_from(items, limit, k + 1, budget.pixels() as int) {
                            Ok(r) => {
                                assert(old_taken + (seq![t] + r) =~= taken + r);
                            },
                            Err(_) => {},
                        }
                    } else {
                        assert(old_taken + seq![t] =~= taken);
                    }
                }
                if !go_on {
                    break ;
                }
            },
        }
    }
    match budget.finish() {
        Err(e) => Err(e),
        Ok(()) => Ok(out),
    }
}

/// What an uploaded clip turns into.
pub enum DecodedClip {
    /// The frames of a GIF or an animated WebP, oldest first.
    Frames(Vec<Canvas>),
    /// An MP4 or WebM container, for the external decoder.
    Container,
}

/// What an animation whose decoder yields `items` turns into: its kept frames, or the
/// refusal of [`animation_err`].
pub open spec fn clip_from(items: Seq<Result<(u32, u32, Seq<u8>), Seq<char>>>, max_frames: int, r: Result<
    DecodedClip,
    JepaError,
>) -> bool {
    match r {
        Ok(DecodedClip::Frames(v)) => animation_ok(items, max_frames, v@) && frames_within(v@, max_frames),
        Ok(DecodedClip::Container) => false,
        Err(e) => animation_err(items, max_frames, e),
    }
}

/// Decode a clip held in memory. GIF and animated WebP are decoded here, keeping the
/// first frames the decoder yields up to `max_frames` (at least one, never more than
/// [`MAX_DECODED_FRAMES`]) and the pixel budget; MP4 and WebM come back as
/// [`DecodedClip::Container`]; a still WebP, a still image format or unknown bytes
/// are refused.
pub fn decode_clip_bytes(bytes: &[u8], max_frames: usize) -> (r: Result<DecodedClip, JepaError>)
    ensures
        match spec_media_format(bytes@) {
            None => r matches Err(JepaError::InvalidPayload(m)) && m@ == sniff_failure(bytes@),
            Some(f) => if is_container_format(f) {
                r matches Ok(DecodedClip::Container)
            } else if f == "gif"@ {
                match gif_decoded(bytes@) {
                    Err(m) => r matches Err(JepaError::ImageProcessing(x)) && x@ == m,
                    Ok(items) => clip_from(items, max_frames as int, r),
                }
            } else if f == "webp"@ {
                match webp_open_error(bytes@) {
                    Some(m) => r matches Err(JepaError::ImageProcessing(x)) && x@ == m,
                    None => if webp_animated(bytes@) {
                        clip_from(webp_animation(bytes@), max_frames as int, r)
                    } else {
                        r matches Err(JepaError::InvalidPayload(x)) && x@ == "WebP file is a still image, not an animation"@
                    },
                }
            } else {
                r matches Err(JepaError::InvalidPayload(m)) && m@ == "'"@ + f + "' is not a video format"@
            },
        },
{
    let format: &'static str = match sniff_media_format(bytes) {
        Ok(f) => f,
        Err(e) => {
            return Err(e);
        },
    };
    let f: Vec<char> = to_chars(format);
    proof {
        reveal_strlit("gif");
        reveal_strlit("webp");
        reveal_strlit("mp4");
        reveal_strlit("webm");
        assert("mp4"@[0] != "gif"@[0] && "mp4"@[0] != "webp"@[0]);
        assert("webm"@.len() != "gif"@.len() && "webm"@[3] != "webp"@[3]);
    }
    if chars_eq(&f, "gif") {
        match gif_frames(bytes) {
            Err(message) => Err(JepaError::ImageProcessing(message)),
            Ok(frames) => match decode_animation(frames, max_frames) {
                Ok(v) => Ok(DecodedClip::Frames(v)),
                Err(e) => Err(e),
            },
        }
    } else if chars_eq(&f, "webp") {
        match open_webp(bytes) {
            Err(message) => Err(JepaError::ImageProcessing(message)),
            Ok(decoder) => {
                if webp_is_animated(&decoder) {
                    match decode_animation(webp_frames(decoder), max_frames) {
                        Ok(v) => Ok(DecodedClip::Frames(v)),
                        Err(e) => Err(e),
                    }
                } else {
                    Err(
                        JepaError::InvalidPayload(
                            String::from_str("WebP file is a still image, not an animation"),
                        ),
                    )
                }
            },
        }
    } else if chars_eq(&f, "mp4") || chars_eq(&f, "webm") {
        Ok(DecodedClip::Container)
    } else {
        let mut m: String = String::from_str("'");
        m.append(format);
        m.append("' is not a video format");
        proof {
            reveal_strlit("'");
            reveal_strlit("' is not a video format");
        }
        Err(JepaError::InvalidPayload(m))
    }
}

} // verus!
